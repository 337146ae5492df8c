//! The session timeline: the steps of all sessions, those of sessions in the
//! current working directory first, newer steps before older ones.

use crate::history_cell::{ResumeRequest, ResumeRequestView};
use crate::rollout::{
    extract_cwd_from_rollout, first_cwd, read_steps_from_rollout, session_id,
    session_id_from_filename, step_views, steps_of, Step, StepView,
};
use crate::text::{
    append, decimal, join, join_from, lines, push_decimal, push_str, same, split, split_at_char,
    string_of, texts, to_chars,
};
use vstd::prelude::*;

verus! {

/// A piece of a path counts as a component unless it is empty or `.`.
pub open spec fn is_kept(piece: Seq<char>) -> bool {
    piece.len() > 0 && piece != seq!['.']
}

/// The pieces that count as components.
pub open spec fn kept(pieces: Seq<Seq<char>>) -> Seq<Seq<char>>
    decreases pieces.len(),
{
    if pieces.len() == 0 {
        Seq::empty()
    } else if is_kept(pieces.last()) {
        kept(pieces.drop_last()).push(pieces.last())
    } else {
        kept(pieces.drop_last())
    }
}

/// The components of a path with `/` between its names. The root `/` is a
/// component of its own. Repeated and trailing `/` do not count, nor does
/// `.`, except as the first component of a path without a root.
pub open spec fn components(path: Seq<char>) -> Seq<Seq<char>> {
    let pieces = split(path, '/');
    let head = if path.len() > 0 && path[0] == '/' {
        seq![seq!['/']]
    } else if pieces[0] == seq!['.'] {
        seq![seq!['.']]
    } else {
        Seq::empty()
    };
    head + kept(pieces)
}

/// The last two components of a path, or all it has, with `/` between them.
pub open spec fn shortened_path(path: Seq<char>) -> Seq<char> {
    let parts = components(path);
    if parts.len() <= 2 {
        join(parts, seq!['/'])
    } else {
        join(parts.subrange(parts.len() - 2, parts.len() as int), seq!['/'])
    }
}

/// Two paths match where the components of one begin those of the other.
pub open spec fn paths_match_spec(a: Seq<char>, b: Seq<char>) -> bool {
    components(a).is_prefix_of(components(b)) || components(b).is_prefix_of(components(a))
}

/// The components of a path.
pub fn components_of(path: &Vec<char>) -> (out: Vec<Vec<char>>)
    ensures
        texts(out@) == components(path@),
{
    let pieces = split_at_char(path, '/');
    let mut out: Vec<Vec<char>> = Vec::new();
    let mut dot: Vec<char> = Vec::new();
    dot.push('.');
    assert(dot@ =~= seq!['.']);
    assert(texts(pieces@)[0] == pieces@[0]@);
    if path.len() > 0 && path[0] == '/' {
        let mut root: Vec<char> = Vec::new();
        root.push('/');
        assert(root@ =~= seq!['/']);
        out.push(root);
    } else if same(&pieces[0], &dot) {
        out.push(dot);
        dot = Vec::new();
        dot.push('.');
        assert(dot@ =~= seq!['.']);
    }
    let ghost head = texts(out@);
    let mut i: usize = 0;
    assert(texts(pieces@).take(0) =~= Seq::<Seq<char>>::empty());
    assert(head + kept(texts(pieces@).take(0)) =~= head);
    while i < pieces.len()
        invariant
            i <= pieces.len(),
            dot@ == seq!['.'],
            texts(out@) == head + kept(texts(pieces@).take(i as int)),
        decreases pieces.len() - i,
    {
        proof {
            let upto = texts(pieces@).take(i + 1);
            assert(upto.drop_last() =~= texts(pieces@).take(i as int));
            assert(upto.last() == pieces@[i as int]@);
        }
        if pieces[i].len() > 0 && !same(&pieces[i], &dot) {
            let ghost before = texts(out@);
            out.push(crate::text::slice(&pieces[i], 0, pieces[i].len()));
            proof {
                assert(pieces@[i as int]@.subrange(0, pieces@[i as int]@.len() as int)
                    == pieces@[i as int]@);
                assert(texts(out@) =~= before.push(pieces@[i as int]@));
            }
        }
        i += 1;
    }
    assert(texts(pieces@).take(pieces.len() as int) == texts(pieces@));
    out
}

/// The last two components of a path, with `/` between them.
pub fn shorten_path(path: &str) -> (r: String)
    ensures
        r@ == shortened_path(path@),
{
    let parts = components_of(&to_chars(path));
    let mut sep: Vec<char> = Vec::new();
    sep.push('/');
    assert(sep@ =~= seq!['/']);
    let from: usize = if parts.len() <= 2 {
        0
    } else {
        parts.len() - 2
    };
    assert(texts(parts@).subrange(0, parts.len() as int) == texts(parts@));
    string_of(&join_from(&parts, from, &sep))
}

/// Whether the texts of `a` begin those of `b`.
pub fn begins(a: &Vec<Vec<char>>, b: &Vec<Vec<char>>) -> (r: bool)
    ensures
        r == texts(a@).is_prefix_of(texts(b@)),
{
    if a.len() > b.len() {
        return false;
    }
    let mut i: usize = 0;
    while i < a.len()
        invariant
            i <= a.len() <= b.len(),
            forall|k: int| 0 <= k < i ==> texts(a@)[k] == texts(b@)[k],
        decreases a.len() - i,
    {
        if !same(&a[i], &b[i]) {
            assert(texts(a@)[i as int] != texts(b@)[i as int]);
            assert(texts(b@).subrange(0, a.len() as int)[i as int] == texts(b@)[i as int]);
            return false;
        }
        i += 1;
    }
    assert(texts(b@).subrange(0, a.len() as int) =~= texts(a@));
    true
}

/// Whether one of two paths begins the other, component by component.
pub fn paths_match(current: &str, other: &str) -> (r: bool)
    ensures
        r == paths_match_spec(current@, other@),
{
    let a = components_of(&to_chars(current));
    let b = components_of(&to_chars(other));
    begins(&b, &a) || begins(&a, &b)
}

/// A rollout file as the timeline reads it.
#[derive(Debug, PartialEq, Eq)]
pub struct SessionFile {
    /// The path of the file.
    pub path: String,
    /// What the file holds; `None` where it could not be read.
    pub text: Option<String>,
    /// The time of its last change in milliseconds since the epoch.
    pub mtime_ms: i64,
    /// That time as the timeline shows it.
    pub mtime_display: String,
}

/// The mathematical value of a rollout file.
pub ghost struct SessionFileView {
    pub path: Seq<char>,
    pub text: Option<Seq<char>>,
    pub mtime_ms: i64,
    pub mtime_display: Seq<char>,
}

impl View for SessionFile {
    type V = SessionFileView;

    open spec fn view(&self) -> SessionFileView {
        SessionFileView {
            path: self.path@,
            text: match self.text {
                Some(t) => Some(t@),
                None => None,
            },
            mtime_ms: self.mtime_ms,
            mtime_display: self.mtime_display@,
        }
    }
}

/// One entry of the timeline: a step of a session to resume from.
#[derive(Debug, PartialEq, Eq)]
pub struct TimelineItem {
    /// The session and the step, as the list shows them.
    pub name: String,
    /// Time, working directory and summary of the step, as far as known.
    pub description: Option<String>,
    /// The rollout file to resume.
    pub target: String,
    /// The step to resume from.
    pub step: usize,
    /// The time of the step in milliseconds since the epoch.
    pub sort_key: i64,
    /// Whether the session ran in the current working directory.
    pub cwd_match: bool,
}

/// The mathematical value of a timeline entry.
pub ghost struct TimelineItemView {
    pub name: Seq<char>,
    pub description: Option<Seq<char>>,
    pub target: Seq<char>,
    pub step: nat,
    pub sort_key: i64,
    pub cwd_match: bool,
}

impl View for TimelineItem {
    type V = TimelineItemView;

    open spec fn view(&self) -> TimelineItemView {
        TimelineItemView {
            name: self.name@,
            description: match self.description {
                Some(d) => Some(d@),
                None => None,
            },
            target: self.target@,
            step: self.step as nat,
            sort_key: self.sort_key,
            cwd_match: self.cwd_match,
        }
    }
}

/// The views of a sequence of entries.
pub open spec fn item_views(items: Seq<TimelineItem>) -> Seq<TimelineItemView> {
    items.map_values(|x: TimelineItem| x@)
}

/// The views of a sequence of rollout files.
pub open spec fn file_views(files: Seq<SessionFile>) -> Seq<SessionFileView> {
    files.map_values(|x: SessionFile| x@)
}

/// What stands between the parts of a description.
pub open spec fn bullet() -> Seq<char> {
    seq![' ', ' ', '\u{2022}', ' ', ' ']
}

/// The parts of a description: the time, the working directory and the
/// summary, each only where there is one.
pub open spec fn description_parts(
    timestamp: Seq<char>,
    cwd_short: Option<Seq<char>>,
    summary: Seq<char>,
) -> Seq<Seq<char>> {
    (if timestamp.len() > 0 {
        seq![timestamp]
    } else {
        Seq::empty()
    }) + (match cwd_short {
        Some(c) => seq!["cwd: "@ + c],
        None => Seq::empty(),
    }) + (if summary.len() > 0 {
        seq![summary]
    } else {
        Seq::empty()
    })
}

/// The description of a step, where it has any part.
pub open spec fn description(
    timestamp: Seq<char>,
    cwd_short: Option<Seq<char>>,
    summary: Seq<char>,
) -> Option<Seq<char>> {
    let parts = description_parts(timestamp, cwd_short, summary);
    if parts.len() == 0 {
        None
    } else {
        Some(join(parts, bullet()))
    }
}

/// The steps of a rollout file; a file that could not be read has none.
pub open spec fn file_steps(file: SessionFileView) -> Seq<StepView> {
    match file.text {
        Some(t) => steps_of(t, file.mtime_ms, file.mtime_display),
        None => Seq::empty(),
    }
}

/// The working directory of the session of a rollout file.
pub open spec fn file_cwd(file: SessionFileView) -> Option<Seq<char>> {
    match file.text {
        Some(t) => first_cwd(lines(t)),
        None => None,
    }
}

/// The entry for the step `k` of a rollout file.
pub open spec fn entry(current: Seq<char>, file: SessionFileView, k: int) -> TimelineItemView {
    let step = file_steps(file)[k];
    let cwd = file_cwd(file);
    TimelineItemView {
        name: (match session_id(file.path) {
            Some(id) => id,
            None => "?"@,
        }) + " [step "@ + decimal(k as nat) + "]"@,
        description: description(
            step.timestamp,
            match cwd {
                Some(c) => Some(shortened_path(c)),
                None => None,
            },
            step.summary,
        ),
        target: file.path,
        step: k as nat,
        sort_key: step.sort_key_ms,
        cwd_match: match cwd {
            Some(c) => paths_match_spec(current, c),
            None => false,
        },
    }
}

/// The entries of a rollout file, in the order of its steps.
pub open spec fn file_entries(current: Seq<char>, file: SessionFileView) -> Seq<TimelineItemView> {
    Seq::new(file_steps(file).len(), |k: int| entry(current, file, k))
}

/// The entries of all files, file by file.
pub open spec fn all_entries(current: Seq<char>, files: Seq<SessionFileView>) -> Seq<TimelineItemView>
    decreases files.len(),
{
    if files.len() == 0 {
        Seq::empty()
    } else {
        all_entries(current, files.drop_last()) + file_entries(current, files.last())
    }
}

/// `a` stands before `b` in the timeline: it matches the current working
/// directory and `b` does not, or both do alike and `a` is newer.
pub open spec fn comes_before(a: TimelineItemView, b: TimelineItemView) -> bool {
    (a.cwd_match && !b.cwd_match) || (a.cwd_match == b.cwd_match && a.sort_key > b.sort_key)
}

/// Where `e` goes into an arranged sequence: before the first entry that it
/// stands before, behind all others.
pub open spec fn place(arranged: Seq<TimelineItemView>, e: TimelineItemView) -> int
    decreases arranged.len(),
{
    if arranged.len() == 0 || comes_before(e, arranged[0]) {
        0
    } else {
        1 + place(arranged.drop_first(), e)
    }
}

/// The entries in the order of the timeline. Entries of which neither stands
/// before the other keep the order in which they came.
pub open spec fn arranged(entries: Seq<TimelineItemView>) -> Seq<TimelineItemView>
    decreases entries.len(),
{
    if entries.len() == 0 {
        Seq::empty()
    } else {
        let rest = arranged(entries.drop_last());
        rest.insert(place(rest, entries.last()), entries.last())
    }
}

/// The timeline of the given rollout files for the current working
/// directory.
pub open spec fn timeline(current: Seq<char>, files: Seq<SessionFileView>) -> Seq<TimelineItemView> {
    arranged(all_entries(current, files))
}

/// `place` is the first index whose entry `e` stands before, or the length.
pub proof fn lemma_place(s: Seq<TimelineItemView>, e: TimelineItemView, p: int)
    requires
        0 <= p <= s.len(),
        forall|j: int| 0 <= j < p ==> !comes_before(e, #[trigger] s[j]),
        p == s.len() || comes_before(e, s[p]),
    ensures
        place(s, e) == p,
    decreases s.len(),
{
    if p > 0 {
        assert(!comes_before(e, s[0]));
        assert forall|j: int| 0 <= j < p - 1 implies !comes_before(
            e,
            #[trigger] s.drop_first()[j],
        ) by {
            assert(s.drop_first()[j] == s[j + 1]);
        }
        lemma_place(s.drop_first(), e, p - 1);
    }
}

/// `place` stays within the sequence; `e` stands before the entry at it and
/// before none of the earlier ones.
pub proof fn lemma_place_bounds(s: Seq<TimelineItemView>, e: TimelineItemView)
    ensures
        0 <= place(s, e) <= s.len(),
        forall|j: int| 0 <= j < place(s, e) ==> !comes_before(e, #[trigger] s[j]),
        place(s, e) < s.len() ==> comes_before(e, s[place(s, e)]),
    decreases s.len(),
{
    if !(s.len() == 0 || comes_before(e, s[0])) {
        lemma_place_bounds(s.drop_first(), e);
        assert forall|j: int| 0 <= j < place(s, e) implies !comes_before(e, #[trigger] s[j]) by {
            if j > 0 {
                assert(s[j] == s.drop_first()[j - 1]);
            }
        }
    }
}

/// In the timeline no entry stands behind one that it should stand before,
/// and the timeline holds exactly the entries it was made of.
pub proof fn lemma_arranged(entries: Seq<TimelineItemView>)
    ensures
        arranged(entries).len() == entries.len(),
        forall|i: int, j: int|
            0 <= i < j < entries.len() ==> !comes_before(
                #[trigger] arranged(entries)[j],
                #[trigger] arranged(entries)[i],
            ),
        arranged(entries).to_multiset() == entries.to_multiset(),
    decreases entries.len(),
{
    if entries.len() == 0 {
        assert(entries =~= Seq::<TimelineItemView>::empty());
    } else {
        let rest = arranged(entries.drop_last());
        let e = entries.last();
        let p = place(rest, e);
        lemma_arranged(entries.drop_last());
        lemma_place_bounds(rest, e);
        let out = arranged(entries);
        assert forall|i: int, j: int| 0 <= i < j < entries.len() implies !comes_before(
            #[trigger] out[j],
            #[trigger] out[i],
        ) by {
            if j == p {
                assert(out[i] == rest[i]);
            } else if i == p {
                assert(out[j] == rest[j - 1]);
                if j - 1 > p {
                    assert(!comes_before(rest[j - 1], rest[p]));
                }
            } else if i < p && j < p {
                assert(out[i] == rest[i] && out[j] == rest[j]);
            } else if i < p && j > p {
                assert(out[i] == rest[i] && out[j] == rest[j - 1]);
            } else {
                assert(out[i] == rest[i - 1] && out[j] == rest[j - 1]);
            }
        }
        crate::text::lemma_insert_to_multiset(rest, p, e);
        assert(entries =~= entries.drop_last().push(e));
        vstd::seq_lib::to_multiset_build(entries.drop_last(), e);
    }
}

/// The description of a step.
pub fn describe(timestamp: &str, cwd_short: &Option<String>, summary: &str) -> (r: Option<String>)
    ensures
        r is Some == description(
            timestamp@,
            match cwd_short {
                Some(c) => Some(c@),
                None => None,
            },
            summary@,
        ) is Some,
        r matches Some(d) ==> description(
            timestamp@,
            match cwd_short {
                Some(c) => Some(c@),
                None => None,
            },
            summary@,
        ) == Some(d@),
{
    let mut parts: Vec<Vec<char>> = Vec::new();
    let ts = to_chars(timestamp);
    if ts.len() > 0 {
        parts.push(ts);
    }
    match cwd_short {
        Some(c) => {
            let mut part = to_chars("cwd: ");
            append(&mut part, &to_chars(c.as_str()));
            parts.push(part);
        },
        None => {},
    }
    let text = to_chars(summary);
    if text.len() > 0 {
        parts.push(text);
    }
    let ghost wanted = description_parts(
        timestamp@,
        match cwd_short {
            Some(c) => Some(c@),
            None => None,
        },
        summary@,
    );
    assert(texts(parts@) =~= wanted);
    if parts.len() == 0 {
        return None;
    }
    let mut sep: Vec<char> = Vec::new();
    sep.push(' ');
    sep.push(' ');
    sep.push('\u{2022}');
    sep.push(' ');
    sep.push(' ');
    assert(sep@ =~= bullet());
    assert(texts(parts@).subrange(0, parts.len() as int) == texts(parts@));
    Some(string_of(&join_from(&parts, 0, &sep)))
}

/// Whether the entry `a` stands before `b` in the timeline.
pub fn stands_before(a: &TimelineItem, b: &TimelineItem) -> (r: bool)
    ensures
        r == comes_before(a@, b@),
{
    (a.cwd_match && !b.cwd_match) || (a.cwd_match == b.cwd_match && a.sort_key > b.sort_key)
}

/// Puts an entry into a timeline, at its place.
pub fn insert_item(out: &mut Vec<TimelineItem>, item: TimelineItem)
    ensures
        item_views(final(out)@) == item_views(old(out)@).insert(
            place(item_views(old(out)@), item@),
            item@,
        ),
{
    let mut p: usize = 0;
    while p < out.len() && !stands_before(&item, &out[p])
        invariant
            p <= out.len(),
            forall|j: int| 0 <= j < p ==> !comes_before(item@, #[trigger] item_views(out@)[j]),
        decreases out.len() - p,
    {
        p += 1;
    }
    proof {
        lemma_place(item_views(out@), item@, p as int);
    }
    let ghost before = item_views(out@);
    let ghost v = item@;
    out.insert(p, item);
    assert(item_views(out@) =~= before.insert(p as int, v));
}

/// The timeline of the given rollout files for the current working
/// directory: an entry for each step of each session, those of sessions in
/// the current working directory first, newer steps before older ones.
pub fn collect_timeline_items(current_cwd: &str, files: &Vec<SessionFile>) -> (out: Vec<
    TimelineItem,
>)
    ensures
        item_views(out@) == timeline(current_cwd@, file_views(files@)),
{
    let mut out: Vec<TimelineItem> = Vec::new();
    let ghost mut pending: Seq<TimelineItemView> = Seq::empty();
    let mut i: usize = 0;
    assert(file_views(files@).take(0) =~= Seq::<SessionFileView>::empty());
    assert(item_views(out@) =~= arranged(pending));
    while i < files.len()
        invariant
            i <= files.len(),
            pending == all_entries(current_cwd@, file_views(files@).take(i as int)),
            item_views(out@) == arranged(pending),
        decreases files.len() - i,
    {
        let file = &files[i];
        let ghost done = pending;
        proof {
            let upto = file_views(files@).take(i + 1);
            assert(upto.drop_last() =~= file_views(files@).take(i as int));
            assert(upto.last() == file@);
        }
        let mut steps: Vec<Step> = Vec::new();
        let mut cwd: Option<String> = None;
        match &file.text {
            Some(t) => {
                steps = read_steps_from_rollout(
                    t.as_str(),
                    file.mtime_ms,
                    file.mtime_display.as_str(),
                );
                cwd = extract_cwd_from_rollout(t.as_str());
            },
            None => {
                assert(step_views(steps@) =~= file_steps(file@));
            },
        }
        let mut cwd_short: Option<String> = None;
        let mut cwd_match = false;
        match &cwd {
            Some(c) => {
                cwd_short = Some(shorten_path(c.as_str()));
                cwd_match = paths_match(current_cwd, c.as_str());
            },
            None => {},
        }
        let label = match session_id_from_filename(file.path.as_str()) {
            Some(id) => id,
            None => crate::text::text_copy("?"),
        };
        let mut k: usize = 0;
        assert(file_entries(current_cwd@, file@).take(0) =~= Seq::<TimelineItemView>::empty());
        assert(done + file_entries(current_cwd@, file@).take(0) =~= done);
        while k < steps.len()
            invariant
                k <= steps.len(),
                step_views(steps@) == file_steps(file@),
                label@ == (match session_id(file@.path) {
                    Some(id) => id,
                    None => "?"@,
                }),
                cwd_short is Some == file_cwd(file@) is Some,
                cwd_short matches Some(c) ==> c@ == shortened_path(file_cwd(file@)->0),
                cwd_match == (match file_cwd(file@) {
                    Some(c) => paths_match_spec(current_cwd@, c),
                    None => false,
                }),
                pending == done + file_entries(current_cwd@, file@).take(k as int),
                item_views(out@) == arranged(pending),
            decreases steps.len() - k,
        {
            let mut name = String::new();
            push_str(&mut name, label.as_str());
            push_str(&mut name, " [step ");
            push_decimal(&mut name, k);
            push_str(&mut name, "]");
            assert(step_views(steps@)[k as int] == steps@[k as int]@);
            let item = TimelineItem {
                name,
                description: describe(
                    steps[k].timestamp.as_str(),
                    &cwd_short,
                    steps[k].summary.as_str(),
                ),
                target: crate::text::text_copy(file.path.as_str()),
                step: k,
                sort_key: steps[k].sort_key_ms,
                cwd_match,
            };
            proof {
                let e = entry(current_cwd@, file@, k as int);
                assert(item@.name == e.name);
                assert(item@.description == e.description);
                assert(item@ == e);
                let grown = pending.push(e);
                assert(grown.drop_last() =~= pending);
                assert(file_entries(current_cwd@, file@).take(k + 1) =~= file_entries(
                    current_cwd@,
                    file@,
                ).take(k as int).push(e));
                assert(grown =~= done + file_entries(current_cwd@, file@).take(k + 1));
                pending = grown;
            }
            insert_item(&mut out, item);
            k += 1;
        }
        proof {
            let all = file_entries(current_cwd@, file@);
            assert(all.take(steps.len() as int) == all);
        }
        i += 1;
    }
    assert(file_views(files@).take(files.len() as int) == file_views(files@));
    out
}

/// The request that choosing an entry makes: to resume its rollout from its
/// step, with no prompt yet.
pub fn resume_request(item: &TimelineItem) -> (r: ResumeRequest)
    ensures
        r@ == (ResumeRequestView {
            target: item@.target,
            at: None,
            step: Some(item.step),
            prompt: Seq::empty(),
        }),
{
    ResumeRequest {
        target: crate::text::text_copy(item.target.as_str()),
        at: None,
        step: Some(item.step),
        prompt: String::new(),
    }
}

} // verus!
