//! The rollout index: which files are session rollouts, which session a file
//! belongs to, and the steps that a rollout records.

use crate::json::{field, items_of, parsed, text_field, text_of, Json, JsonValue};
use crate::text::{
    begins_with, contains, ends_with, find_last, finishes_with, first_line, includes, last_index,
    lines, same, slice, sort_strings, sorted, split, split_at_char, split_lines, starts_with,
    string_of, strings, texts, to_chars, trim, utf8_len, utf8_prefix,
};
use crate::timeline::kept;
use vstd::prelude::*;

verus! {

/// The name of the file at a path: the last of its names between `/`,
/// where an empty name and `.` do not count, so that `/` at the end of the
/// path changes nothing. A path without a name has none, nor has one whose
/// last name is `..`.
pub open spec fn base_name(path: Seq<char>) -> Option<Seq<char>> {
    let names = kept(split(path, '/'));
    if names.len() == 0 || names.last() == seq!['.', '.'] {
        None
    } else {
        Some(names.last())
    }
}

/// `s` without any `suffix` at its end, however often it stands there.
pub open spec fn strip_suffixes(s: Seq<char>, suffix: Seq<char>) -> Seq<char>
    decreases s.len(),
{
    if suffix.len() > 0 && ends_with(s, suffix) {
        strip_suffixes(s.subrange(0, s.len() - suffix.len()), suffix)
    } else {
        s
    }
}

/// The session that a rollout file belongs to: what follows the last `-` of
/// its name, the ending `.jsonl` left aside. A name without `-` has none,
/// nor has a path without a name.
pub open spec fn session_id(path: Seq<char>) -> Option<Seq<char>> {
    match base_name(path) {
        Some(name) => {
            let stem = strip_suffixes(name, ".jsonl"@);
            let cut = last_index(stem, '-');
            if cut < 0 {
                None
            } else {
                Some(stem.subrange(cut + 1, stem.len() as int))
            }
        },
        None => None,
    }
}

/// A rollout file is one whose name begins with `rollout-` and ends with
/// `.jsonl`.
pub open spec fn is_rollout_path(path: Seq<char>) -> bool {
    base_name(path) matches Some(name) && starts_with(name, "rollout-"@) && ends_with(
        name,
        ".jsonl"@,
    )
}

/// The name of the file at `path`.
pub fn file_name(path: &Vec<char>) -> (name: Option<Vec<char>>)
    ensures
        name is Some == base_name(path@) is Some,
        name matches Some(n) ==> base_name(path@) == Some(n@),
{
    let pieces = split_at_char(path, '/');
    let mut dot: Vec<char> = Vec::new();
    dot.push('.');
    let mut up: Vec<char> = Vec::new();
    up.push('.');
    up.push('.');
    assert(dot@ =~= seq!['.']);
    assert(up@ =~= seq!['.', '.']);
    let mut i: usize = pieces.len();
    assert(texts(pieces@).take(i as int) =~= texts(pieces@));
    while i > 0
        invariant
            i <= pieces.len(),
            dot@ == seq!['.'],
            up@ == seq!['.', '.'],
            texts(pieces@) == split(path@, '/'),
            kept(texts(pieces@)) == kept(texts(pieces@).take(i as int)),
        decreases i,
    {
        i -= 1;
        proof {
            let upto = texts(pieces@).take(i + 1);
            assert(upto.drop_last() =~= texts(pieces@).take(i as int));
            assert(upto.last() == pieces@[i as int]@);
        }
        if pieces[i].len() > 0 && !same(&pieces[i], &dot) {
            if same(&pieces[i], &up) {
                return None;
            }
            assert(pieces@[i as int]@.subrange(0, pieces@[i as int]@.len() as int)
                == pieces@[i as int]@);
            return Some(slice(&pieces[i], 0, pieces[i].len()));
        }
    }
    None
}

/// Whether `path` names a rollout file.
pub fn is_rollout_file(path: &str) -> (r: bool)
    ensures
        r == is_rollout_path(path@),
{
    match file_name(&to_chars(path)) {
        Some(name) => {
            let head = to_chars("rollout-");
            let tail = to_chars(".jsonl");
            begins_with(&name, &head) && finishes_with(&name, &tail)
        },
        None => false,
    }
}

/// The session that the rollout file at `path` belongs to.
pub fn session_id_from_filename(path: &str) -> (r: Option<String>)
    ensures
        r is Some == session_id(path@) is Some,
        r matches Some(id) ==> session_id(path@) == Some(id@),
{
    let name = match file_name(&to_chars(path)) {
        Some(name) => name,
        None => {
            return None;
        },
    };
    let tail = to_chars(".jsonl");
    proof {
        vstd::string::axiom_str_literal_len(".jsonl");
        reveal_strlit(".jsonl");
    }
    let mut end: usize = name.len();
    assert(name@.subrange(0, end as int) == name@);
    while end >= tail.len() && finishes_with_at(&name, end, &tail)
        invariant
            end <= name.len(),
            tail@ == ".jsonl"@,
            tail@.len() == 6,
            strip_suffixes(name@, tail@) == strip_suffixes(name@.subrange(0, end as int), tail@),
        decreases end,
    {
        assert(name@.subrange(0, end as int).subrange(0, end - tail@.len()) == name@.subrange(
            0,
            end - tail@.len(),
        ));
        end = end - tail.len();
    }
    match find_last(&name, 0, end, '-') {
        Some(i) => Some(crate::text::to_string(&name, i + 1, end)),
        None => None,
    }
}

/// Whether `name[..end]` ends with `suffix`.
fn finishes_with_at(name: &Vec<char>, end: usize, suffix: &Vec<char>) -> (r: bool)
    requires
        suffix.len() <= end <= name.len(),
    ensures
        r == ends_with(name@.subrange(0, end as int), suffix@),
{
    let r = crate::text::has_at(name, suffix, end - suffix.len());
    proof {
        let part = name@.subrange(0, end as int);
        assert(part.subrange(end - suffix.len(), end as int) == name@.subrange(
            end - suffix.len(),
            end as int,
        ));
    }
    r
}

/// The rollout files among `paths`, in the order in which they stand there.
pub open spec fn rollouts_of(paths: Seq<Seq<char>>) -> Seq<Seq<char>>
    decreases paths.len(),
{
    if paths.len() == 0 {
        Seq::empty()
    } else {
        let rest = rollouts_of(paths.drop_last());
        if is_rollout_path(paths.last()) {
            rest.push(paths.last())
        } else {
            rest
        }
    }
}

/// `out` lists the rollout files among `paths`: each as often as it stands
/// there, in lexicographic order.
pub open spec fn is_listing(paths: Seq<Seq<char>>, out: Seq<Seq<char>>) -> bool {
    sorted(out) && out.to_multiset() == rollouts_of(paths).to_multiset()
}

/// The rollout files among the files found under a sessions directory, in
/// lexicographic order.
pub fn enumerate(paths: &Vec<String>) -> (out: Vec<String>)
    ensures
        is_listing(strings(paths@), strings(out@)),
{
    let mut kept: Vec<String> = Vec::new();
    let mut i: usize = 0;
    assert(strings(paths@.take(0)) =~= Seq::<Seq<char>>::empty());
    while i < paths.len()
        invariant
            i <= paths.len(),
            strings(kept@) == rollouts_of(strings(paths@.take(i as int))),
        decreases paths.len() - i,
    {
        proof {
            let next = strings(paths@.take(i + 1));
            assert(next.drop_last() =~= strings(paths@.take(i as int)));
            assert(next.last() == paths@[i as int]@);
        }
        if is_rollout_file(paths[i].as_str()) {
            let ghost before = strings(kept@);
            kept.push(paths[i].clone());
            assert(strings(kept@) =~= before.push(paths@[i as int]@));
        }
        i += 1;
    }
    assert(paths@.take(paths.len() as int) == paths@);
    sort_strings(&kept)
}

/// A path stands among the rollout files of `paths` as often as in `paths`
/// where it names a rollout file, and not at all where it names none.
pub proof fn lemma_rollouts_count(paths: Seq<Seq<char>>, x: Seq<char>)
    ensures
        rollouts_of(paths).to_multiset().count(x) == if is_rollout_path(x) {
            paths.to_multiset().count(x)
        } else {
            0
        },
    decreases paths.len(),
{
    broadcast use vstd::multiset::group_multiset_axioms;

    if paths.len() == 0 {
        paths.to_multiset_ensures();
        rollouts_of(paths).to_multiset_ensures();
    } else {
        let rest = paths.drop_last();
        lemma_rollouts_count(rest, x);
        assert(paths =~= rest.push(paths.last()));
        vstd::seq_lib::to_multiset_build(rest, paths.last());
        if is_rollout_path(paths.last()) {
            vstd::seq_lib::to_multiset_build(rollouts_of(rest), paths.last());
        }
    }
}

/// Enumerating does not depend on the order in which the files were found:
/// two walks that find the same files give the same listing.
pub proof fn lemma_enumerate_stable(
    a: Seq<Seq<char>>,
    b: Seq<Seq<char>>,
    la: Seq<Seq<char>>,
    lb: Seq<Seq<char>>,
)
    requires
        a.to_multiset() == b.to_multiset(),
        is_listing(a, la),
        is_listing(b, lb),
    ensures
        la == lb,
{
    assert forall|x: Seq<char>|
        rollouts_of(a).to_multiset().count(x) == rollouts_of(b).to_multiset().count(x) by {
        lemma_rollouts_count(a, x);
        lemma_rollouts_count(b, x);
    }
    assert(rollouts_of(a).to_multiset() =~= rollouts_of(b).to_multiset());
    crate::text::lemma_lex_le_total_ordering();
    let leq = |x: Seq<char>, y: Seq<char>| crate::text::lex_le(x, y);
    assert(vstd::relations::sorted_by(la, leq));
    assert(vstd::relations::sorted_by(lb, leq));
    vstd::seq_lib::lemma_sorted_unique(la, lb, leq);
}

/// Enumerating is idempotent: the listing of a listing is that listing.
pub proof fn lemma_enumerate_idempotent(
    paths: Seq<Seq<char>>,
    once: Seq<Seq<char>>,
    twice: Seq<Seq<char>>,
)
    requires
        is_listing(paths, once),
        is_listing(once, twice),
    ensures
        twice == once,
{
    assert forall|x: Seq<char>|
        rollouts_of(once).to_multiset().count(x) == once.to_multiset().count(x) by {
        lemma_rollouts_count(once, x);
        lemma_rollouts_count(paths, x);
    }
    assert(rollouts_of(once).to_multiset() =~= once.to_multiset());
    crate::text::lemma_lex_le_total_ordering();
    let leq = |x: Seq<char>, y: Seq<char>| crate::text::lex_le(x, y);
    assert(vstd::relations::sorted_by(once, leq));
    assert(vstd::relations::sorted_by(twice, leq));
    vstd::seq_lib::lemma_sorted_unique(twice, once, leq);
}

/// The milliseconds since the epoch of an RFC 3339 date and time, as
/// `chrono` reads it; nothing where `chrono` does not take the text for one.
pub uninterp spec fn rfc3339_millis(text: Seq<char>) -> Option<i64>;

/// `chrono::DateTime::parse_from_rfc3339`, and `timestamp_millis` on what it
/// read: the instant that `text` names, in milliseconds since the epoch. The
/// same text always gives the same outcome.
#[verifier::external_body]
fn parse_rfc3339_millis(text: &str) -> (r: Option<i64>)
    ensures
        r == rfc3339_millis(text@),
{
    match chrono::DateTime::parse_from_rfc3339(text) {
        Ok(at) => Some(at.timestamp_millis()),
        Err(_) => None,
    }
}

/// One step of a rollout: a turn that can be resumed from.
#[derive(Debug, PartialEq, Eq)]
pub struct Step {
    /// When the step was recorded, as the rollout says it.
    pub timestamp: String,
    /// A short summary of the step.
    pub summary: String,
    /// The time of the step in milliseconds since the epoch.
    pub sort_key_ms: i64,
}

/// The mathematical value of a step.
pub ghost struct StepView {
    pub timestamp: Seq<char>,
    pub summary: Seq<char>,
    pub sort_key_ms: i64,
}

impl View for Step {
    type V = StepView;

    open spec fn view(&self) -> StepView {
        StepView {
            timestamp: self.timestamp@,
            summary: self.summary@,
            sort_key_ms: self.sort_key_ms,
        }
    }
}

/// The views of a sequence of steps.
pub open spec fn step_views(steps: Seq<Step>) -> Seq<StepView> {
    steps.map_values(|s: Step| s@)
}

/// The text by which a line is taken for a state record.
pub open spec fn state_mark() -> Seq<char> {
    "\"record_type\":\"state\""@
}

/// A line is taken for a state record where it holds the state mark.
pub open spec fn is_state_line(line: Seq<char>) -> bool {
    contains(line, state_mark())
}

/// The document of a line, where the line is JSON.
pub open spec fn document_of(line: Seq<char>) -> Option<JsonValue> {
    match parsed(line) {
        Ok(doc) => Some(doc),
        Err(_) => None,
    }
}

/// The text under `key`: that of the record itself or, where the record has
/// no such field, that of its `state` object.
pub open spec fn probe(doc: JsonValue, key: Seq<char>) -> Option<Seq<char>> {
    match field(doc, key) {
        Some(v) => text_of(v),
        None => match field(doc, "state"@) {
            Some(state) => match field(state, key) {
                Some(v) => text_of(v),
                None => None,
            },
            None => None,
        },
    }
}

/// The response id that a line records: that of a state record that is JSON.
pub open spec fn response_id(line: Seq<char>) -> Option<Seq<char>> {
    if is_state_line(line) {
        match document_of(line) {
            Some(doc) => probe(doc, "last_response_id"@),
            None => None,
        }
    } else {
        None
    }
}

/// The response id that the last of `lines` with one records.
pub open spec fn latest_id(lines: Seq<Seq<char>>) -> Option<Seq<char>>
    decreases lines.len(),
{
    if lines.len() == 0 {
        None
    } else {
        match response_id(lines.last()) {
            Some(id) => Some(id),
            None => latest_id(lines.drop_last()),
        }
    }
}

/// The lines that begin a step: those that record a response id other than
/// the latest one before them.
pub open spec fn step_lines(lines: Seq<Seq<char>>) -> Seq<Seq<char>>
    decreases lines.len(),
{
    if lines.len() == 0 {
        Seq::empty()
    } else {
        let before = lines.drop_last();
        let id = response_id(lines.last());
        if id is Some && id != latest_id(before) {
            step_lines(before).push(lines.last())
        } else {
            step_lines(before)
        }
    }
}

/// The response ids of the steps of a rollout, in file order.
pub open spec fn response_ids(text: Seq<char>) -> Seq<Seq<char>> {
    step_lines(lines(text)).map_values(|line: Seq<char>| response_id(line)->0)
}

/// The text of an optional field, empty where the field is missing.
pub open spec fn or_empty(text: Option<Seq<char>>) -> Seq<char> {
    match text {
        Some(t) => t,
        None => Seq::empty(),
    }
}

/// The step that a state record begins. Its time is that of `created_at`
/// or, where that is no RFC 3339 time, the time `mtime_ms` of the file.
pub open spec fn step_of(line: Seq<char>, mtime_ms: i64) -> StepView {
    let doc = document_of(line)->0;
    let created = or_empty(probe(doc, "created_at"@));
    StepView {
        timestamp: created,
        summary: or_empty(probe(doc, "summary"@)),
        sort_key_ms: match rfc3339_millis(created) {
            Some(ms) => ms,
            None => mtime_ms,
        },
    }
}

/// The steps that the state records of a rollout begin.
pub open spec fn state_steps(text: Seq<char>, mtime_ms: i64) -> Seq<StepView> {
    step_lines(lines(text)).map_values(|line: Seq<char>| step_of(line, mtime_ms))
}

/// The text under `key` of a record, or of its `state` object.
pub fn probe_text<'a>(doc: &'a Json, key: &str) -> (r: Option<&'a str>)
    ensures
        r is Some == probe(doc@, key@) is Some,
        r matches Some(t) ==> probe(doc@, key@) == Some(t@),
{
    match doc.get(key) {
        Some(v) => v.as_str(),
        None => match doc.get("state") {
            Some(state) => match state.get(key) {
                Some(v) => v.as_str(),
                None => None,
            },
            None => None,
        },
    }
}

/// The document of a line, where the line is JSON.
pub fn parse_line(line: &Vec<char>) -> (r: Option<Json>)
    ensures
        r is Some == document_of(line@) is Some,
        r matches Some(doc) ==> document_of(line@) == Some(doc@),
{
    let text = string_of(line);
    match crate::json::parse(text.as_str()) {
        Ok(doc) => Some(doc),
        Err(_) => None,
    }
}

/// Whether a line is taken for a state record.
pub fn holds_state_mark(line: &Vec<char>) -> (r: bool)
    ensures
        r == is_state_line(line@),
{
    let mark = to_chars("\"record_type\":\"state\"");
    includes(line, &mark)
}

/// The documents of the lines that begin a step, in file order.
pub fn step_documents(text: &str) -> (docs: Vec<Json>)
    ensures
        docs@.len() == step_lines(lines(text@)).len(),
        forall|i: int|
            0 <= i < docs@.len() ==> document_of(#[trigger] step_lines(lines(text@))[i]) == Some(
                docs@[i]@,
            ),
        forall|i: int|
            0 <= i < docs@.len() ==> response_id(#[trigger] step_lines(lines(text@))[i]) == probe(
                docs@[i]@,
                "last_response_id"@,
            ) && response_id(step_lines(lines(text@))[i]) is Some,
{
    let chars = to_chars(text);
    let all = split_lines(&chars);
    let mut docs: Vec<Json> = Vec::new();
    let mut last: Option<String> = None;
    let mut i: usize = 0;
    assert(texts(all@).take(0) =~= Seq::<Seq<char>>::empty());
    while i < all.len()
        invariant
            i <= all.len(),
            texts(all@) == lines(text@),
            docs@.len() == step_lines(texts(all@).take(i as int)).len(),
            forall|k: int|
                0 <= k < docs@.len() ==> document_of(
                    #[trigger] step_lines(texts(all@).take(i as int))[k],
                ) == Some(docs@[k]@),
            forall|k: int|
                0 <= k < docs@.len() ==> response_id(
                    #[trigger] step_lines(texts(all@).take(i as int))[k],
                ) == probe(docs@[k]@, "last_response_id"@) && response_id(
                    step_lines(texts(all@).take(i as int))[k],
                ) is Some,
            last is Some == latest_id(texts(all@).take(i as int)) is Some,
            last matches Some(id) ==> latest_id(texts(all@).take(i as int)) == Some(id@),
        decreases all.len() - i,
    {
        let ghost before = texts(all@).take(i as int);
        let ghost upto = texts(all@).take(i + 1);
        proof {
            assert(upto.drop_last() =~= before);
            assert(upto.last() == all@[i as int]@);
        }
        if holds_state_mark(&all[i]) {
            match parse_line(&all[i]) {
                Some(doc) => {
                    let fresh: Option<String> = match probe_text(&doc, "last_response_id") {
                        Some(id) => {
                            let known = match &last {
                                Some(seen) => crate::text::same_text(seen.as_str(), id),
                                None => false,
                            };
                            if known {
                                None
                            } else {
                                let mut copy = String::new();
                                crate::text::push_str(&mut copy, id);
                                Some(copy)
                            }
                        },
                        None => None,
                    };
                    match fresh {
                        Some(id) => {
                            docs.push(doc);
                            last = Some(id);
                        },
                        None => {},
                    }
                },
                None => {},
            }
        }
        i += 1;
    }
    assert(texts(all@).take(all.len() as int) == texts(all@));
    docs
}

/// The text of the field `key` of a document, where that field is a string.
pub fn get_text<'a>(doc: &'a Json, key: &str) -> (r: Option<&'a str>)
    ensures
        r is Some == text_field(doc@, key@) is Some,
        r matches Some(t) ==> text_field(doc@, key@) == Some(t@),
{
    match doc.get(key) {
        Some(v) => v.as_str(),
        None => None,
    }
}

/// The text of one item of a message: its `text` or, without one, the `text`
/// of the first item of its `content`.
pub open spec fn item_text(item: JsonValue) -> Option<Seq<char>> {
    if text_field(item, "text"@) is Some {
        text_field(item, "text"@)
    } else {
        match field(item, "content"@) {
            Some(c) => match items_of(c) {
                Some(inner) => if inner.len() > 0 {
                    text_field(inner[0], "text"@)
                } else {
                    None
                },
                None => None,
            },
            None => None,
        }
    }
}

/// The texts of the items, one below the other.
pub open spec fn joined_text(items: Seq<JsonValue>) -> Seq<char>
    decreases items.len(),
{
    if items.len() == 0 {
        Seq::empty()
    } else {
        let before = joined_text(items.drop_last());
        match item_text(items.last()) {
            Some(t) => if before.len() > 0 {
                before + seq!['\n'] + t
            } else {
                t
            },
            None => before,
        }
    }
}

/// The text of a message record.
pub open spec fn message_content(doc: JsonValue) -> Seq<char> {
    match field(doc, "content"@) {
        Some(c) => match items_of(c) {
            Some(items) => joined_text(items),
            None => Seq::empty(),
        },
        None => Seq::empty(),
    }
}

/// The role and text of the message that a line records: the line is no
/// state record, it is JSON of type `message`, and its text is not blank.
pub open spec fn message_record(line: Seq<char>) -> Option<(Seq<char>, Seq<char>)> {
    if is_state_line(line) {
        None
    } else {
        match document_of(line) {
            Some(doc) => if text_field(doc, "type"@) == Some("message"@) && trim(
                message_content(doc),
            ).len() > 0 {
                Some((or_empty(text_field(doc, "role"@)), message_content(doc)))
            } else {
                None
            },
            None => None,
        }
    }
}

/// The text of the last message of the given role.
pub open spec fn last_message(lines: Seq<Seq<char>>, role: Seq<char>) -> Option<Seq<char>>
    decreases lines.len(),
{
    if lines.len() == 0 {
        None
    } else {
        match message_record(lines.last()) {
            Some((r, content)) => if r == role {
                Some(content)
            } else {
                last_message(lines.drop_last(), role)
            },
            None => last_message(lines.drop_last(), role),
        }
    }
}

/// A summary of at most 80 bytes: a longer one is cut to the longest
/// beginning that fits, and an ellipsis follows it.
pub open spec fn shortened(s: Seq<char>) -> Seq<char> {
    if utf8_len(s) > 80 {
        utf8_prefix(s, 80).push('\u{2026}')
    } else {
        s
    }
}

/// The summary of a rollout without state records: the first line of the
/// last assistant message or, without one, of the last user message.
pub open spec fn legacy_summary_text(text: Seq<char>) -> Seq<char> {
    let all = lines(text);
    let raw = match last_message(all, "assistant"@) {
        Some(m) => m,
        None => or_empty(last_message(all, "user"@)),
    };
    shortened(trim(first_line(raw)))
}

/// The steps of a rollout: those of its state records or, where they begin
/// none, one step made of the file's time and the summary of its messages.
pub open spec fn steps_of(text: Seq<char>, mtime_ms: i64, mtime_display: Seq<char>) -> Seq<
    StepView,
> {
    let recorded = state_steps(text, mtime_ms);
    if recorded.len() > 0 {
        recorded
    } else {
        seq![
            StepView {
                timestamp: mtime_display,
                summary: legacy_summary_text(text),
                sort_key_ms: mtime_ms,
            },
        ]
    }
}

/// The text of one item of a message.
pub fn text_of_item<'a>(item: &'a Json) -> (r: Option<&'a str>)
    ensures
        r is Some == item_text(item@) is Some,
        r matches Some(t) ==> item_text(item@) == Some(t@),
{
    match get_text(item, "text") {
        Some(t) => Some(t),
        None => match item.get("content") {
            Some(c) => match c.as_array() {
                Some(inner) => if inner.len() > 0 {
                    get_text(&inner[0], "text")
                } else {
                    None
                },
                None => None,
            },
            None => None,
        },
    }
}

/// The text of a message record.
pub fn content_of(doc: &Json) -> (content: Vec<char>)
    ensures
        content@ == message_content(doc@),
{
    let mut content: Vec<char> = Vec::new();
    match doc.get("content") {
        Some(c) => match c.as_array() {
            Some(items) => {
                let ghost values = items_of(c@)->0;
                let mut i: usize = 0;
                assert(values.take(0) =~= Seq::<JsonValue>::empty());
                while i < items.len()
                    invariant
                        i <= items.len(),
                        values.len() == items@.len(),
                        forall|k: int| 0 <= k < items@.len() ==> values[k] == (#[trigger] items@[k])@,
                        content@ == joined_text(values.take(i as int)),
                    decreases items.len() - i,
                {
                    proof {
                        assert(values.take(i + 1).drop_last() == values.take(i as int));
                        assert(values.take(i + 1).last() == items@[i as int]@);
                    }
                    match text_of_item(&items[i]) {
                        Some(t) => {
                            if content.len() > 0 {
                                content.push('\n');
                            }
                            let more = to_chars(t);
                            crate::text::append(&mut content, &more);
                        },
                        None => {},
                    }
                    i += 1;
                }
                assert(values.take(items.len() as int) == values);
            },
            None => {},
        },
        None => {},
    }
    content
}

/// The role and text of the message that a line records.
pub fn read_message(line: &Vec<char>) -> (r: Option<(Vec<char>, Vec<char>)>)
    ensures
        r is Some == message_record(line@) is Some,
        r matches Some(m) ==> message_record(line@) == Some((m.0@, m.1@)),
{
    if holds_state_mark(line) {
        return None;
    }
    match parse_line(line) {
        Some(doc) => {
            let is_message = match get_text(&doc, "type") {
                Some(t) => crate::text::same_text(t, "message"),
                None => false,
            };
            if !is_message {
                return None;
            }
            let content = content_of(&doc);
            let bounds = crate::text::trim_bounds(&content, 0, content.len());
            assert(content@.subrange(0, content.len() as int) == content@);
            if bounds.0 == bounds.1 {
                return None;
            }
            let role = match get_text(&doc, "role") {
                Some(r) => to_chars(r),
                None => Vec::new(),
            };
            Some((role, content))
        },
        None => None,
    }
}

/// Cuts a summary to at most 80 bytes, with an ellipsis where it was cut.
pub fn shorten(s: &Vec<char>) -> (r: String)
    ensures
        r@ == shortened(s@),
{
    let k = crate::text::utf8_fit(s, 80);
    let mut out = crate::text::to_string(s, 0, k);
    if k < s.len() {
        out.push('\u{2026}');
    } else {
        assert(s@.take(k as int) == s@);
    }
    out
}

/// The summary of a rollout without state records.
pub fn legacy_synthesize_summary_from_rollout(text: &str) -> (r: String)
    ensures
        r@ == legacy_summary_text(text@),
{
    let chars = to_chars(text);
    let all = split_lines(&chars);
    let assistant = to_chars("assistant");
    let user = to_chars("user");
    let mut last_assistant: Option<Vec<char>> = None;
    let mut last_user: Option<Vec<char>> = None;
    let mut i: usize = 0;
    assert(texts(all@).take(0) =~= Seq::<Seq<char>>::empty());
    proof {
        reveal_strlit("assistant");
        reveal_strlit("user");
        assert("assistant"@.len() != "user"@.len());
    }
    while i < all.len()
        invariant
            i <= all.len(),
            assistant@ == "assistant"@,
            user@ == "user"@,
            "assistant"@ != "user"@,
            last_assistant is Some == last_message(texts(all@).take(i as int), "assistant"@) is Some,
            last_assistant matches Some(m) ==> last_message(
                texts(all@).take(i as int),
                "assistant"@,
            ) == Some(m@),
            last_user is Some == last_message(texts(all@).take(i as int), "user"@) is Some,
            last_user matches Some(m) ==> last_message(texts(all@).take(i as int), "user"@)
                == Some(m@),
        decreases all.len() - i,
    {
        proof {
            let upto = texts(all@).take(i + 1);
            assert(upto.drop_last() =~= texts(all@).take(i as int));
            assert(upto.last() == all@[i as int]@);
        }
        match read_message(&all[i]) {
            Some(m) => {
                if crate::text::same(&m.0, &assistant) {
                    last_assistant = Some(m.1);
                } else if crate::text::same(&m.0, &user) {
                    last_user = Some(m.1);
                }
            },
            None => {},
        }
        i += 1;
    }
    assert(texts(all@).take(all.len() as int) == texts(all@));
    let raw: Vec<char> = match last_assistant {
        Some(m) => m,
        None => match last_user {
            Some(m) => m,
            None => Vec::new(),
        },
    };
    let e = crate::text::scan_line(&raw, 0);
    assert(raw@.subrange(0, raw.len() as int) == raw@);
    let stop: usize = if e < raw.len() && e > 0 && raw[e - 1] == '\r' {
        e - 1
    } else {
        e
    };
    let bounds = crate::text::trim_bounds(&raw, 0, stop);
    let trimmed = slice(&raw, bounds.0, bounds.1);
    shorten(&trimmed)
}

/// The steps of a rollout. `text` is what the file holds, `mtime_ms` the time
/// of its last change in milliseconds since the epoch, and `mtime_display`
/// that time as the timeline shows it.
pub fn read_steps_from_rollout(text: &str, mtime_ms: i64, mtime_display: &str) -> (steps: Vec<Step>)
    ensures
        step_views(steps@) == steps_of(text@, mtime_ms, mtime_display@),
{
    let docs = step_documents(text);
    let ghost begun = step_lines(lines(text@));
    let mut steps: Vec<Step> = Vec::new();
    let mut i: usize = 0;
    while i < docs.len()
        invariant
            i <= docs.len(),
            begun == step_lines(lines(text@)),
            docs@.len() == begun.len(),
            forall|k: int|
                0 <= k < docs@.len() ==> document_of(#[trigger] begun[k]) == Some(docs@[k]@),
            steps@.len() == i,
            forall|k: int| 0 <= k < i ==> (#[trigger] steps@[k])@ == step_of(begun[k], mtime_ms),
        decreases docs.len() - i,
    {
        let mut timestamp = String::new();
        match probe_text(&docs[i], "created_at") {
            Some(t) => crate::text::push_str(&mut timestamp, t),
            None => {},
        }
        let mut summary = String::new();
        match probe_text(&docs[i], "summary") {
            Some(t) => crate::text::push_str(&mut summary, t),
            None => {},
        }
        let sort_key_ms = match parse_rfc3339_millis(timestamp.as_str()) {
            Some(ms) => ms,
            None => mtime_ms,
        };
        assert(document_of(begun[i as int]) == Some(docs@[i as int]@));
        steps.push(Step { timestamp, summary, sort_key_ms });
        i += 1;
    }
    if steps.len() == 0 {
        let mut timestamp = String::new();
        crate::text::push_str(&mut timestamp, mtime_display);
        let summary = legacy_synthesize_summary_from_rollout(text);
        steps.push(Step { timestamp, summary, sort_key_ms: mtime_ms });
        assert(step_views(steps@) =~= steps_of(text@, mtime_ms, mtime_display@));
    } else {
        assert(step_views(steps@) =~= state_steps(text@, mtime_ms));
    }
    steps
}

/// The response id of the step `step` of a rollout, counted from zero.
pub fn resolve_step_to_response_id(text: &str, step: usize) -> (r: Option<String>)
    ensures
        r is Some == (step < response_ids(text@).len()),
        r matches Some(id) ==> id@ == response_ids(text@)[step as int],
{
    let docs = step_documents(text);
    if step < docs.len() {
        match probe_text(&docs[step], "last_response_id") {
            Some(id) => {
                let mut copy = String::new();
                crate::text::push_str(&mut copy, id);
                assert(response_id(step_lines(lines(text@))[step as int]) == Some(copy@));
                Some(copy)
            },
            None => {
                assert(response_id(step_lines(lines(text@))[step as int]) is Some);
                None
            },
        }
    } else {
        None
    }
}

/// The working directory that a line records: that of a shell call.
pub open spec fn cwd_of(line: Seq<char>) -> Option<Seq<char>> {
    if is_state_line(line) {
        None
    } else {
        match document_of(line) {
            Some(doc) => if text_field(doc, "type"@) == Some("local_shell_call"@) {
                match field(doc, "action"@) {
                    Some(action) => match field(action, "exec"@) {
                        Some(exec) => match text_field(exec, "working_directory"@) {
                            Some(dir) => if dir.len() > 0 {
                                Some(dir)
                            } else {
                                None
                            },
                            None => None,
                        },
                        None => None,
                    },
                    None => None,
                }
            } else {
                None
            },
            None => None,
        }
    }
}

/// The first working directory that the lines record.
pub open spec fn first_cwd(lines: Seq<Seq<char>>) -> Option<Seq<char>>
    decreases lines.len(),
{
    if lines.len() == 0 {
        None
    } else {
        match cwd_of(lines[0]) {
            Some(dir) => Some(dir),
            None => first_cwd(lines.drop_first()),
        }
    }
}

/// The working directory that a line records.
pub fn read_cwd(line: &Vec<char>) -> (r: Option<String>)
    ensures
        r is Some == cwd_of(line@) is Some,
        r matches Some(dir) ==> cwd_of(line@) == Some(dir@),
{
    if holds_state_mark(line) {
        return None;
    }
    match parse_line(line) {
        Some(doc) => {
            let is_call = match get_text(&doc, "type") {
                Some(t) => crate::text::same_text(t, "local_shell_call"),
                None => false,
            };
            if !is_call {
                return None;
            }
            match doc.get("action") {
                Some(action) => match action.get("exec") {
                    Some(exec) => match get_text(exec, "working_directory") {
                        Some(dir) => {
                            let chars = to_chars(dir);
                            if chars.len() > 0 {
                                Some(string_of(&chars))
                            } else {
                                None
                            }
                        },
                        None => None,
                    },
                    None => None,
                },
                None => None,
            }
        },
        None => None,
    }
}

/// The working directory of the session of a rollout: the first that one of
/// its shell calls records.
pub fn extract_cwd_from_rollout(text: &str) -> (r: Option<String>)
    ensures
        r is Some == first_cwd(lines(text@)) is Some,
        r matches Some(dir) ==> first_cwd(lines(text@)) == Some(dir@),
{
    let chars = to_chars(text);
    let all = split_lines(&chars);
    let mut i: usize = 0;
    assert(texts(all@).skip(0) =~= texts(all@));
    while i < all.len()
        invariant
            i <= all.len(),
            texts(all@) == lines(text@),
            first_cwd(lines(text@)) == first_cwd(texts(all@).skip(i as int)),
        decreases all.len() - i,
    {
        proof {
            let rest = texts(all@).skip(i as int);
            assert(rest[0] == all@[i as int]@);
            assert(rest.drop_first() =~= texts(all@).skip(i + 1));
        }
        match read_cwd(&all[i]) {
            Some(dir) => {
                return Some(dir);
            },
            None => {},
        }
        i += 1;
    }
    None
}

/// How many of the lines are taken for state records.
pub open spec fn state_line_count(lines: Seq<Seq<char>>) -> nat
    decreases lines.len(),
{
    if lines.len() == 0 {
        0
    } else {
        state_line_count(lines.drop_last()) + if is_state_line(lines.last()) {
            1nat
        } else {
            0nat
        }
    }
}

/// Every line that begins a step records a response id; the last of them
/// records the latest id; and no two in a row record the same id.
pub proof fn lemma_step_lines(all: Seq<Seq<char>>)
    ensures
        forall|k: int|
            0 <= k < step_lines(all).len() ==> response_id(#[trigger] step_lines(all)[k]) is Some,
        step_lines(all).len() > 0 ==> response_id(step_lines(all).last()) == latest_id(all),
        step_lines(all).len() == 0 ==> latest_id(all) is None,
        forall|k: int|
            0 <= k && k + 1 < step_lines(all).len() ==> response_id(#[trigger] step_lines(all)[k])
                != response_id(step_lines(all)[k + 1]),
        step_lines(all).len() <= state_line_count(all),
    decreases all.len(),
{
    if all.len() > 0 {
        lemma_step_lines(all.drop_last());
    }
}

/// Runs of one response id collapse into a single step: two steps in a row
/// never have the same response id.
pub proof fn lemma_steps_collapse_runs(text: Seq<char>, i: int)
    requires
        0 <= i,
        i + 1 < response_ids(text).len(),
    ensures
        response_ids(text)[i] != response_ids(text)[i + 1],
{
    lemma_step_lines(lines(text));
    let begun = step_lines(lines(text));
    assert(response_id(begun[i]) != response_id(begun[i + 1]));
}

/// A rollout records as many steps as response ids, and no more than it has
/// state records.
pub proof fn lemma_steps_bounded(text: Seq<char>, mtime_ms: i64)
    ensures
        state_steps(text, mtime_ms).len() == response_ids(text).len(),
        state_steps(text, mtime_ms).len() <= state_line_count(lines(text)),
{
    lemma_step_lines(lines(text));
}

} // verus!
