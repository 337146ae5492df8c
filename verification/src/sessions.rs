//! The session commands: listing rollouts, resolving a target to a rollout
//! file, showing its steps, and preparing a resumed run.

use crate::error::SessionError;
use crate::rollout::{
    document_of, enumerate, is_listing, is_rollout_file, is_rollout_path, or_empty, probe,
    probe_text, response_id, response_ids, session_id, session_id_from_filename, step_documents,
    step_lines,
};
use crate::text::{decimal, lex_le, lines, push_decimal, push_str, str_le, strings, to_chars};
use vstd::prelude::*;

verus! {

/// What `resume` was asked to do.
#[derive(Debug, PartialEq, Eq)]
pub struct ResumeArgs {
    /// Session id or path of a rollout file.
    pub target: String,
    /// The next user prompt.
    pub prompt: String,
    /// Model for the resumed run.
    pub model: Option<String>,
    /// Response id to resume from.
    pub at: Option<String>,
    /// Step to resume from, counted from zero.
    pub step: Option<usize>,
    /// Profile to apply.
    pub profile: Option<String>,
    /// Working directory of the resumed run.
    pub cwd: Option<String>,
    /// Run without confirmations in a workspace-write sandbox.
    pub full_auto: bool,
    /// Run without sandbox and approvals.
    pub yolo: bool,
}

/// What `show` was asked to do.
#[derive(Debug, PartialEq, Eq)]
pub struct ShowArgs {
    /// Session id or path of a rollout file.
    pub target: String,
}

/// What `branch` was asked to do.
#[derive(Debug, PartialEq, Eq)]
pub struct BranchArgs {
    /// Session id or path of a rollout file.
    pub target: String,
    /// Response id that the branch starts from.
    pub from: String,
    /// Name of the branch.
    pub name: String,
}

/// What `checkout` was asked to do.
#[derive(Debug, PartialEq, Eq)]
pub struct CheckoutArgs {
    /// Session id or path of a rollout file.
    pub target: String,
    /// Name of the branch to make active.
    pub branch: String,
}

/// `path` is a rollout file of the session `target`.
pub open spec fn is_match(path: Seq<char>, target: Seq<char>) -> bool {
    is_rollout_path(path) && session_id(path) == Some(target)
}

/// Some file among `files` is a rollout of the session `target`.
pub open spec fn has_match(files: Seq<Seq<char>>, target: Seq<char>) -> bool {
    exists|i: int| 0 <= i < files.len() && is_match(#[trigger] files[i], target)
}

/// `path` is the lexicographically last rollout of the session `target`
/// among `files`.
pub open spec fn is_newest(files: Seq<Seq<char>>, target: Seq<char>, path: Seq<char>) -> bool {
    &&& files.contains(path)
    &&& is_match(path, target)
    &&& forall|i: int|
        0 <= i < files.len() && is_match(#[trigger] files[i], target) ==> lex_le(files[i], path)
}

/// Resolves a target to a rollout file. A target that exists as a path is
/// that file. Any other target is a session id: its rollout is the
/// lexicographically last one of that session among `files`, the files found
/// under the sessions directory.
pub fn resolve_target_to_path(target: &str, target_exists: bool, files: &Vec<String>) -> (r: Result<
    String,
    SessionError,
>)
    ensures
        match r {
            Ok(path) => if target_exists {
                path@ == target@
            } else {
                is_newest(strings(files@), target@, path@)
            },
            Err(e) => {
                &&& !target_exists
                &&& !has_match(strings(files@), target@)
                &&& e matches SessionError::NoRolloutForSession(id) && id@ == target@
            },
        },
{
    if target_exists {
        let mut path = String::new();
        push_str(&mut path, target);
        return Ok(path);
    }
    let mut best: Option<usize> = None;
    let mut i: usize = 0;
    while i < files.len()
        invariant
            i <= files.len(),
            match best {
                Some(b) => b < i && is_match(files@[b as int]@, target@) && forall|k: int|
                    0 <= k < i && is_match(#[trigger] strings(files@)[k], target@) ==> lex_le(
                        strings(files@)[k],
                        files@[b as int]@,
                    ),
                None => forall|k: int|
                    0 <= k < i ==> !is_match(#[trigger] strings(files@)[k], target@),
            },
        decreases files.len() - i,
    {
        let ghost all = strings(files@);
        if matches_session(files[i].as_str(), target) {
            match best {
                Some(b) => {
                    if str_le(files[b].as_str(), files[i].as_str()) {
                        proof {
                            assert forall|k: int|
                                0 <= k < i + 1 && is_match(#[trigger] all[k], target@) implies lex_le(
                                all[k],
                                files@[i as int]@,
                            ) by {
                                if k < i {
                                    crate::text::lemma_lex_le_transitive(
                                        all[k],
                                        files@[b as int]@,
                                        files@[i as int]@,
                                    );
                                } else {
                                    crate::text::lemma_lex_le_reflexive(all[k]);
                                }
                            }
                        }
                        best = Some(i);
                    } else {
                        proof {
                            crate::text::lemma_lex_le_total(files@[b as int]@, files@[i as int]@);
                        }
                    }
                },
                None => {
                    proof {
                        crate::text::lemma_lex_le_reflexive(files@[i as int]@);
                    }
                    best = Some(i);
                },
            }
        }
        i += 1;
    }
    match best {
        Some(b) => {
            proof {
                assert(strings(files@)[b as int] == files@[b as int]@);
            }
            Ok(files[b].clone())
        },
        None => {
            let mut id = String::new();
            push_str(&mut id, target);
            Err(SessionError::NoRolloutForSession(id))
        },
    }
}

/// Whether `path` is a rollout file of the session `target`.
pub fn matches_session(path: &str, target: &str) -> (r: bool)
    ensures
        r == is_match(path@, target@),
{
    if !is_rollout_file(path) {
        return false;
    }
    match session_id_from_filename(path) {
        Some(id) => crate::text::same_text(id.as_str(), target),
        None => false,
    }
}

/// Resolving the session id of a rollout file gives that file back, where it
/// is the lexicographically last rollout of its session and no file is named
/// like the session id.
pub proof fn lemma_resolve_session_id(files: Seq<Seq<char>>, path: Seq<char>, found: Seq<char>)
    requires
        session_id(path) is Some,
        is_newest(files, session_id(path)->0, path),
        is_newest(files, session_id(path)->0, found),
    ensures
        found == path,
{
    let id = session_id(path)->0;
    let i = choose|i: int| 0 <= i < files.len() && files[i] == path;
    let j = choose|j: int| 0 <= j < files.len() && files[j] == found;
    assert(lex_le(files[i], found));
    assert(lex_le(files[j], path));
    crate::text::lemma_lex_le_antisymmetric(path, found);
}

/// The line that `list` prints for a rollout file: its session id, or `?`
/// where its name gives none, two spaces, and its path.
pub open spec fn list_line(path: Seq<char>) -> Seq<char> {
    (match session_id(path) {
        Some(id) => id,
        None => "?"@,
    }) + "  "@ + path
}

/// The line that `list` prints for a rollout file.
pub fn session_line(path: &str) -> (line: String)
    ensures
        line@ == list_line(path@),
{
    let mut line = String::new();
    match session_id_from_filename(path) {
        Some(id) => push_str(&mut line, id.as_str()),
        None => push_str(&mut line, "?"),
    }
    push_str(&mut line, "  ");
    push_str(&mut line, path);
    line
}

/// The lines that `list` prints for the files found under the sessions
/// directory: one for each rollout file, sorted by path.
pub fn list_sessions(files: &Vec<String>) -> (out: Vec<String>)
    ensures
        exists|listing: Seq<Seq<char>>|
            is_listing(strings(files@), listing) && strings(out@) == listing.map_values(
                |p: Seq<char>| list_line(p),
            ),
{
    let listing = enumerate(files);
    let mut out: Vec<String> = Vec::new();
    let mut i: usize = 0;
    while i < listing.len()
        invariant
            i <= listing.len(),
            out@.len() == i,
            forall|k: int| 0 <= k < i ==> (#[trigger] out@[k])@ == list_line(listing@[k]@),
        decreases listing.len() - i,
    {
        out.push(session_line(listing[i].as_str()));
        i += 1;
    }
    assert(strings(out@) =~= strings(listing@).map_values(|p: Seq<char>| list_line(p)));
    out
}

/// The first characters of a response id, at most twelve.
pub open spec fn short_id(id: Seq<char>) -> Seq<char> {
    if id.len() > 12 {
        id.take(12)
    } else {
        id
    }
}

/// The line that `show` prints for the step `index`, which `line` begins.
pub open spec fn show_line(index: nat, line: Seq<char>) -> Seq<char> {
    let doc = document_of(line)->0;
    let created = or_empty(probe(doc, "created_at"@));
    let summary = or_empty(probe(doc, "summary"@));
    let head = "  ["@ + decimal(index) + "] resp: "@ + short_id(response_id(line)->0);
    if created.len() == 0 && summary.len() == 0 {
        head
    } else {
        head + "  "@ + created + "  "@ + summary
    }
}

/// What `show` prints for a rollout: its path, then a line for each step.
pub open spec fn show_lines(path: Seq<char>, text: Seq<char>) -> Seq<Seq<char>> {
    let begun = step_lines(lines(text));
    seq!["Session: "@ + path] + Seq::new(begun.len(), |i: int| show_line(i as nat, begun[i]))
}

/// What `show` prints for the rollout at `path` that holds `text`.
pub fn show_session(path: &str, text: &str) -> (out: Vec<String>)
    ensures
        strings(out@) == show_lines(path@, text@),
{
    let docs = step_documents(text);
    let ghost begun = step_lines(lines(text@));
    let mut out: Vec<String> = Vec::new();
    let mut head = String::new();
    push_str(&mut head, "Session: ");
    push_str(&mut head, path);
    out.push(head);
    let mut i: usize = 0;
    while i < docs.len()
        invariant
            i <= docs.len(),
            begun == step_lines(lines(text@)),
            docs@.len() == begun.len(),
            forall|k: int|
                0 <= k < docs@.len() ==> document_of(#[trigger] begun[k]) == Some(docs@[k]@),
            forall|k: int|
                0 <= k < docs@.len() ==> response_id(#[trigger] begun[k]) == probe(
                    docs@[k]@,
                    "last_response_id"@,
                ) && response_id(begun[k]) is Some,
            out@.len() == i + 1,
            out@[0]@ == "Session: "@ + path@,
            forall|k: int|
                1 <= k <= i ==> (#[trigger] out@[k])@ == show_line((k - 1) as nat, begun[k - 1]),
        decreases docs.len() - i,
    {
        let mut line = String::new();
        push_str(&mut line, "  [");
        push_decimal(&mut line, i);
        push_str(&mut line, "] resp: ");
        assert(document_of(begun[i as int]) == Some(docs@[i as int]@));
        assert(response_id(begun[i as int]) is Some);
        match probe_text(&docs[i], "last_response_id") {
            Some(id) => {
                let chars = to_chars(id);
                let keep: usize = if chars.len() > 12 {
                    12
                } else {
                    chars.len()
                };
                let short = crate::text::to_string(&chars, 0, keep);
                assert(short@ == short_id(id@));
                push_str(&mut line, short.as_str());
            },
            None => {},
        }
        let created = to_chars(
            match probe_text(&docs[i], "created_at") {
                Some(t) => t,
                None => "",
            },
        );
        let summary = to_chars(
            match probe_text(&docs[i], "summary") {
                Some(t) => t,
                None => "",
            },
        );
        proof {
            reveal_strlit("");
        }
        if created.len() > 0 || summary.len() > 0 {
            push_str(&mut line, "  ");
            push_str(&mut line, crate::text::string_of(&created).as_str());
            push_str(&mut line, "  ");
            push_str(&mut line, crate::text::string_of(&summary).as_str());
        }
        out.push(line);
        i += 1;
    }
    proof {
        let shown = show_lines(path@, text@);
        assert(shown.len() == out@.len());
        assert forall|k: int| 0 <= k < out@.len() implies strings(out@)[k] == shown[k] by {
            if k > 0 {
                assert(out@[k]@ == show_line((k - 1) as nat, begun[k - 1]));
            }
        }
        assert(strings(out@) =~= shown);
    }
    out
}

/// A path with `/` in place of every `\`.
pub open spec fn slashed(path: Seq<char>) -> Seq<char> {
    path.map_values(
        |c: char|
            if c == '\\' {
                '/'
            } else {
                c
            },
    )
}

/// The configuration overrides of a resumed run: the rollout to resume and,
/// where there is one, the response id to continue from.
pub open spec fn resume_override_texts(path: Seq<char>, at: Option<Seq<char>>) -> Seq<Seq<char>> {
    let resume = "experimental_resume=\""@ + slashed(path) + "\""@;
    match at {
        Some(id) => seq![resume, "experimental_previous_response_id=\""@ + id + "\""@],
        None => seq![resume],
    }
}

/// The configuration overrides of a resumed run.
pub fn resume_overrides(path: &str, at: Option<&str>) -> (out: Vec<String>)
    ensures
        strings(out@) == resume_override_texts(
            path@,
            match at {
                Some(id) => Some(id@),
                None => None,
            },
        ),
{
    let chars = to_chars(path);
    let mut resume = String::new();
    push_str(&mut resume, "experimental_resume=\"");
    let ghost head = resume@;
    let mut i: usize = 0;
    while i < chars.len()
        invariant
            i <= chars.len(),
            chars@ == path@,
            resume@ == head + slashed(path@.take(i as int)),
        decreases chars.len() - i,
    {
        let c = chars[i];
        resume.push(
            if c == '\\' {
                '/'
            } else {
                c
            },
        );
        assert(slashed(path@.take(i + 1)) =~= slashed(path@.take(i as int)).push(
            if c == '\\' {
                '/'
            } else {
                c
            },
        ));
        i += 1;
    }
    assert(path@.take(chars.len() as int) == path@);
    push_str(&mut resume, "\"");
    let mut out: Vec<String> = Vec::new();
    out.push(resume);
    match at {
        Some(id) => {
            let mut previous = String::new();
            push_str(&mut previous, "experimental_previous_response_id=\"");
            push_str(&mut previous, id);
            push_str(&mut previous, "\"");
            out.push(previous);
            assert(strings(out@) =~= resume_override_texts(path@, Some(id@)));
        },
        None => {
            assert(strings(out@) =~= resume_override_texts(path@, None));
        },
    }
    out
}

/// The response id that a resumed run continues from. A given id counts
/// before a given step; a step stands for the response id that the rollout
/// records at it.
pub fn resume_point(at: Option<String>, step: Option<usize>, text: &str) -> (r: Result<
    Option<String>,
    SessionError,
>)
    ensures
        at is Some ==> r == Ok::<Option<String>, SessionError>(at),
        at is None && step is None ==> r == Ok::<Option<String>, SessionError>(None),
        at is None && step is Some && step->0 < response_ids(text@).len() ==> (r matches Ok(Some(id))
            && id@ == response_ids(text@)[step->0 as int]),
        at is None && step is Some && step->0 >= response_ids(text@).len() ==> (r matches Err(
            SessionError::NoResponseAtStep(n),
        ) && n == step->0),
{
    match at {
        Some(id) => Ok(Some(id)),
        None => match step {
            Some(n) => match crate::rollout::resolve_step_to_response_id(text, n) {
                Some(id) => Ok(Some(id)),
                None => Err(SessionError::NoResponseAtStep(n)),
            },
            None => Ok(None),
        },
    }
}

/// The run that `resume` starts.
#[derive(Debug, PartialEq, Eq)]
pub struct ResumedRun {
    /// The configuration overrides, those of the caller first.
    pub overrides: Vec<String>,
    /// Model of the run.
    pub model: Option<String>,
    /// Profile to apply.
    pub profile: Option<String>,
    /// Run without confirmations in a workspace-write sandbox.
    pub full_auto: bool,
    /// Run without sandbox and approvals.
    pub yolo: bool,
    /// Working directory of the run.
    pub cwd: Option<String>,
    /// The prompt of the run.
    pub prompt: String,
}

/// Prepares the run that `resume` starts. `path` is the rollout file that the
/// target resolved to, `exists` says whether that file is there, and `text`
/// is what it holds. The run resumes that rollout, from the response id that
/// `resume_point` gives.
pub fn resume_session(
    args: ResumeArgs,
    overrides: Vec<String>,
    path: &str,
    exists: bool,
    text: &str,
) -> (r: Result<ResumedRun, SessionError>)
    ensures
        !exists ==> (r matches Err(SessionError::RolloutNotFound(p)) && p@ == path@),
        exists && args.at is None && args.step is Some && args.step->0 >= response_ids(text@).len()
            ==> (r matches Err(SessionError::NoResponseAtStep(n)) && n == args.step->0),
        exists && !(args.at is None && args.step is Some && args.step->0 >= response_ids(
            text@,
        ).len()) ==> (r matches Ok(run) && strings(run.overrides@) == strings(overrides@)
            + resume_override_texts(
            path@,
            match args.at {
                Some(id) => Some(id@),
                None => match args.step {
                    Some(n) => Some(response_ids(text@)[n as int]),
                    None => None,
                },
            },
        ) && run.model == args.model && run.profile == args.profile && run.full_auto
            == args.full_auto && run.yolo == args.yolo && run.cwd == args.cwd && run.prompt
            == args.prompt),
{
    if !exists {
        let mut p = String::new();
        push_str(&mut p, path);
        return Err(SessionError::RolloutNotFound(p));
    }
    let at = match resume_point(args.at, args.step, text) {
        Ok(at) => at,
        Err(e) => {
            return Err(e);
        },
    };
    let added = match &at {
        Some(id) => resume_overrides(path, Some(id.as_str())),
        None => resume_overrides(path, None),
    };
    let mut all = overrides;
    let ghost before = strings(all@);
    let mut i: usize = 0;
    while i < added.len()
        invariant
            i <= added.len(),
            strings(all@) == before + strings(added@).take(i as int),
        decreases added.len() - i,
    {
        let ghost so_far = strings(all@);
        all.push(added[i].clone());
        assert(strings(all@) =~= so_far.push(added@[i as int]@));
        assert(strings(added@).take(i + 1) =~= strings(added@).take(i as int).push(
            added@[i as int]@,
        ));
        i += 1;
    }
    assert(strings(added@).take(added.len() as int) == strings(added@));
    Ok(
        ResumedRun {
            overrides: all,
            model: args.model,
            profile: args.profile,
            full_auto: args.full_auto,
            yolo: args.yolo,
            cwd: args.cwd,
            prompt: args.prompt,
        },
    )
}

} // verus!
