//! The branch store: named branch pointers and the active head of a
//! session, kept as one JSON document beside the rollout file.

use crate::error::SessionError;
use crate::json::{
    copy, field, find_key, item_views, items_of, lemma_array_view, lemma_object_view, object_map,
    parsed, pretty, set_field, text_field, to_pretty, Json, JsonValue,
};
use crate::rollout::{or_empty, session_id, session_id_from_filename};
use crate::text::{decimal, push_decimal, push_str};
use vstd::prelude::*;

verus! {

/// Why an operation on a branch index fails.
pub ghost enum IndexFault {
    /// The index is no object, or its branches are no array.
    Malformed,
    /// The index has a branch of that name.
    BranchExists,
    /// The index has no branch of that name.
    BranchNotFound,
}

/// The fields of an index. An index that is `null` has none.
pub open spec fn index_fields(index: JsonValue) -> Option<Map<Seq<char>, JsonValue>> {
    match index {
        JsonValue::Object(fields) => Some(fields),
        JsonValue::Null => Some(Map::empty()),
        _ => None,
    }
}

/// The branches that the fields of an index record. Fields without
/// `branches` record none.
pub open spec fn recorded_branches(fields: Map<Seq<char>, JsonValue>) -> Option<Seq<JsonValue>> {
    if fields.contains_key("branches"@) {
        items_of(fields["branches"@])
    } else {
        Some(Seq::empty())
    }
}

/// The branches of an index, as far as it has any.
pub open spec fn branches_of(index: JsonValue) -> Seq<JsonValue> {
    match field(index, "branches"@) {
        Some(b) => match items_of(b) {
            Some(items) => items,
            None => Seq::empty(),
        },
        None => Seq::empty(),
    }
}

/// One of the branches has the name `name`.
pub open spec fn is_named(branches: Seq<JsonValue>, name: Seq<char>) -> bool {
    exists|i: int| 0 <= i < branches.len() && text_field(#[trigger] branches[i], "name"@) == Some(name)
}

/// The active branch of an index.
pub open spec fn head_of(index: JsonValue) -> Option<Seq<char>> {
    text_field(index, "head"@)
}

/// The id of the branch that was given the number `number`.
pub open spec fn branch_id(number: u32) -> Seq<char> {
    "b_"@ + decimal(number as nat)
}

/// The record of a new branch: it starts and ends at `from`.
pub open spec fn branch_record(
    id: Seq<char>,
    name: Seq<char>,
    from: Seq<char>,
    now: Seq<char>,
) -> JsonValue {
    JsonValue::Object(
        Map::empty().insert("branchId"@, JsonValue::Str(id)).insert(
            "name"@,
            JsonValue::Str(name),
        ).insert("baseResponseId"@, JsonValue::Str(from)).insert(
            "tipResponseId"@,
            JsonValue::Str(from),
        ).insert("createdAt"@, JsonValue::Str(now)),
    )
}

/// The index after a branch `name` was made at `from`: the index keeps its
/// session id or gets `session`, records the new branch behind the others,
/// and has the new branch as its head.
pub open spec fn branched(
    index: JsonValue,
    session: Seq<char>,
    name: Seq<char>,
    from: Seq<char>,
    number: u32,
    now: Seq<char>,
) -> Result<JsonValue, IndexFault> {
    match index_fields(index) {
        None => Err(IndexFault::Malformed),
        Some(fields) => match recorded_branches(fields) {
            None => Err(IndexFault::Malformed),
            Some(branches) => if is_named(branches, name) {
                Err(IndexFault::BranchExists)
            } else {
                let with_session = if fields.contains_key("sessionId"@) {
                    fields
                } else {
                    fields.insert("sessionId"@, JsonValue::Str(session))
                };
                Ok(
                    JsonValue::Object(
                        with_session.insert(
                            "branches"@,
                            JsonValue::Array(
                                branches.push(branch_record(branch_id(number), name, from, now)),
                            ),
                        ).insert("head"@, JsonValue::Str(name)).insert(
                            "updatedAt"@,
                            JsonValue::Str(now),
                        ),
                    ),
                )
            },
        },
    }
}

/// The index after the branch `name` was made its head.
pub open spec fn checked_out(index: JsonValue, name: Seq<char>, now: Seq<char>) -> Result<
    JsonValue,
    IndexFault,
> {
    if !is_named(branches_of(index), name) {
        Err(IndexFault::BranchNotFound)
    } else {
        match index {
            JsonValue::Object(fields) => Ok(
                JsonValue::Object(
                    fields.insert("head"@, JsonValue::Str(name)).insert(
                        "updatedAt"@,
                        JsonValue::Str(now),
                    ),
                ),
            ),
            _ => Err(IndexFault::Malformed),
        }
    }
}

/// Whether one of the branches has the name `name`.
pub fn any_named(branches: &Vec<Json>, name: &str) -> (r: bool)
    ensures
        r == is_named(item_views(branches@), name@),
{
    let mut i: usize = 0;
    while i < branches.len()
        invariant
            i <= branches.len(),
            forall|k: int|
                0 <= k < i ==> text_field(#[trigger] item_views(branches@)[k], "name"@) != Some(
                    name@,
                ),
        decreases branches.len() - i,
    {
        let found = match branches[i].get("name") {
            Some(n) => match n.as_str() {
                Some(t) => crate::text::same_text(t, name),
                None => false,
            },
            None => false,
        };
        if found {
            assert(text_field(item_views(branches@)[i as int], "name"@) == Some(name@));
            return true;
        }
        i += 1;
    }
    false
}

/// The record of a new branch.
pub fn new_branch(number: u32, name: &str, from: &str, now: &str) -> (r: Json)
    ensures
        r@ == branch_record(branch_id(number), name@, from@, now@),
{
    let mut id = String::new();
    push_str(&mut id, "b_");
    push_decimal(&mut id, number as usize);
    let mut fields: Vec<(String, Json)> = Vec::new();
    assert(object_map(fields@) =~= Map::empty());
    set_field(&mut fields, "branchId", Json::Str(id));
    set_field(&mut fields, "name", Json::text(name));
    set_field(&mut fields, "baseResponseId", Json::text(from));
    set_field(&mut fields, "tipResponseId", Json::text(from));
    set_field(&mut fields, "createdAt", Json::text(now));
    proof {
        lemma_object_view(fields);
    }
    Json::Object(fields)
}

/// Makes the branch `name` at the response id `from`, with `number` for its
/// id and `now` for the time. An index that already has the name stays as it
/// is, and so does one that is malformed.
pub fn branch_with(
    index: &mut Json,
    session: &str,
    name: &str,
    from: &str,
    number: u32,
    now: &str,
) -> (r: Result<(), SessionError>)
    ensures
        match branched(old(index)@, session@, name@, from@, number, now@) {
            Ok(after) => r is Ok && final(index)@ == after,
            Err(IndexFault::BranchExists) => (r matches Err(SessionError::BranchExists(n)) && n@
                == name@) && *final(index) == *old(index),
            Err(_) => r matches Err(SessionError::MalformedIndex) && *final(index) == *old(index),
        },
{
    let mut branches: Vec<Json> = Vec::new();
    let mut has_session = false;
    match &*index {
        Json::Object(fields) => {
            proof {
                lemma_object_view(*fields);
            }
            match find_key(fields, "branches") {
                Some(at) => match fields[at].1.as_array() {
                    Some(items) => {
                        if any_named(items, name) {
                            proof {
                                lemma_array_view(*items);
                            }
                            return Err(SessionError::BranchExists(crate::text::text_copy(name)));
                        }
                        let mut i: usize = 0;
                        while i < items.len()
                            invariant
                                i <= items.len(),
                                branches@.len() == i,
                                forall|k: int|
                                    0 <= k < i ==> (#[trigger] branches@[k])@ == items@[k]@,
                            decreases items.len() - i,
                        {
                            branches.push(copy(&items[i]));
                            i += 1;
                        }
                        proof {
                            lemma_array_view(*items);
                            assert(item_views(branches@) =~= item_views(items@));
                        }
                    },
                    None => {
                        return Err(SessionError::MalformedIndex);
                    },
                },
                None => {
                    assert(item_views(branches@) =~= Seq::<JsonValue>::empty());
                },
            }
            has_session = find_key(fields, "sessionId").is_some();
        },
        Json::Null => {
            assert(item_views(branches@) =~= Seq::<JsonValue>::empty());
        },
        _ => {
            return Err(SessionError::MalformedIndex);
        },
    }
    let ghost fields_before = index_fields(old(index)@)->0;
    let ghost branches_before = recorded_branches(fields_before)->0;
    assert(item_views(branches@) == branches_before);
    assert(has_session == fields_before.contains_key("sessionId"@));
    branches.push(new_branch(number, name, from, now));
    proof {
        lemma_array_view(branches);
        assert(item_views(branches@) =~= branches_before.push(
            branch_record(branch_id(number), name@, from@, now@),
        ));
    }
    match index {
        Json::Object(fields) => {
            add_branch_fields(fields, has_session, session, branches, name, now);
            proof {
                lemma_object_view(*fields);
            }
        },
        _ => {
            let mut fields: Vec<(String, Json)> = Vec::new();
            assert(object_map(fields@) =~= Map::empty());
            add_branch_fields(&mut fields, has_session, session, branches, name, now);
            proof {
                lemma_object_view(fields);
            }
            *index = Json::Object(fields);
        },
    }
    Ok(())
}

/// Writes the fields that a new branch changes.
fn add_branch_fields(
    fields: &mut Vec<(String, Json)>,
    has_session: bool,
    session: &str,
    branches: Vec<Json>,
    name: &str,
    now: &str,
)
    requires
        has_session == object_map(old(fields)@).contains_key("sessionId"@),
    ensures
        object_map(final(fields)@) == (if has_session {
            object_map(old(fields)@)
        } else {
            object_map(old(fields)@).insert("sessionId"@, JsonValue::Str(session@))
        }).insert("branches"@, Json::Array(branches)@).insert(
            "head"@,
            JsonValue::Str(name@),
        ).insert("updatedAt"@, JsonValue::Str(now@)),
{
    if !has_session {
        set_field(fields, "sessionId", Json::text(session));
    }
    set_field(fields, "branches", Json::Array(branches));
    set_field(fields, "head", Json::text(name));
    set_field(fields, "updatedAt", Json::text(now));
}

/// Makes the branch `name` the head of the index, with `now` for the time.
/// An index without that branch stays as it is.
pub fn checkout_with(index: &mut Json, name: &str, now: &str) -> (r: Result<(), SessionError>)
    ensures
        match checked_out(old(index)@, name@, now@) {
            Ok(after) => r is Ok && final(index)@ == after,
            Err(IndexFault::BranchNotFound) => (r matches Err(SessionError::BranchNotFound(n))
                && n@ == name@) && *final(index) == *old(index),
            Err(_) => r matches Err(SessionError::MalformedIndex) && *final(index) == *old(index),
        },
{
    let known = match index.get("branches") {
        Some(b) => match b.as_array() {
            Some(items) => {
                proof {
                    lemma_array_view(*items);
                    assert(item_views(items@) =~= branches_of(index@));
                }
                any_named(items, name)
            },
            None => false,
        },
        None => false,
    };
    if !known {
        return Err(SessionError::BranchNotFound(crate::text::text_copy(name)));
    }
    match index {
        Json::Object(fields) => {
            proof {
                lemma_object_view(*fields);
            }
            set_field(fields, "head", Json::text(name));
            set_field(fields, "updatedAt", Json::text(now));
            proof {
                lemma_object_view(*fields);
            }
            Ok(())
        },
        _ => Err(SessionError::MalformedIndex),
    }
}

/// The index that a file holds: the document that is its text. Where there
/// is no file, or its text is no JSON, the index is the object without
/// fields.
pub open spec fn loaded(text: Option<Seq<char>>) -> JsonValue {
    match text {
        Some(t) => match parsed(t) {
            Ok(doc) => doc,
            Err(_) => JsonValue::Object(Map::empty()),
        },
        None => JsonValue::Object(Map::empty()),
    }
}

/// The view of an optional text.
pub open spec fn text_view(text: Option<&str>) -> Option<Seq<char>> {
    match text {
        Some(t) => Some(t@),
        None => None,
    }
}

/// The index that a file holds; `text` is `None` where there is no file.
pub fn load_index(text: Option<&str>) -> (index: Json)
    ensures
        index@ == loaded(text_view(text)),
{
    match text {
        Some(t) => match crate::json::parse(t) {
            Ok(doc) => doc,
            Err(_) => Json::empty_object(),
        },
        None => Json::empty_object(),
    }
}

/// `rand::random::<u32>()`: a number from the random number generator of
/// the thread. Any number may come back, and each call may give another.
#[verifier::external_body]
fn random_number() -> (n: u32) {
    rand::random::<u32>()
}

/// `chrono::Utc::now`, and `to_rfc3339` on what it gives: the time of the
/// clock of the system as a text. Each call may give another text.
#[verifier::external_body]
fn now_rfc3339() -> (now: String) {
    chrono::Utc::now().to_rfc3339()
}

/// What making a branch gives for a number and a time: the text of the
/// index with the branch, or the error for an index that has the name
/// already or is malformed.
pub open spec fn branch_outcome(
    index_text: Option<Seq<char>>,
    rollout_path: Seq<char>,
    name: Seq<char>,
    from: Seq<char>,
    number: u32,
    now: Seq<char>,
    r: Result<String, SessionError>,
) -> bool {
    match branched(loaded(index_text), or_empty(session_id(rollout_path)), name, from, number, now) {
        Ok(after) => r matches Ok(text) && text@ == pretty(after),
        Err(IndexFault::BranchExists) => r matches Err(SessionError::BranchExists(n)) && n@ == name,
        Err(_) => r matches Err(SessionError::MalformedIndex),
    }
}

/// What making a branch the head gives for a time: the text of the index
/// with the new head, or the error for a session without an index file, for
/// an index without the branch, or for a malformed index.
pub open spec fn checkout_outcome(
    index_text: Option<Seq<char>>,
    name: Seq<char>,
    now: Seq<char>,
    r: Result<String, SessionError>,
) -> bool {
    match index_text {
        None => r matches Err(SessionError::NoBranches),
        Some(_) => match checked_out(loaded(index_text), name, now) {
            Ok(after) => r matches Ok(text) && text@ == pretty(after),
            Err(IndexFault::BranchNotFound) => r matches Err(SessionError::BranchNotFound(n))
                && n@ == name,
            Err(_) => r matches Err(SessionError::MalformedIndex),
        },
    }
}

/// Makes a branch in the index of a session and gives the text to write to
/// the index file. `index_text` is what the file holds, `None` without a
/// file; `rollout_path` is the rollout of the session; `number` and `now` are
/// the number for the branch id and the time as RFC 3339. On an error there
/// is nothing to write: the file stays as it is.
pub fn branch_session_with(
    index_text: Option<&str>,
    rollout_path: &str,
    name: &str,
    from: &str,
    number: u32,
    now: &str,
) -> (r: Result<String, SessionError>)
    ensures
        branch_outcome(text_view(index_text), rollout_path@, name@, from@, number, now@, r),
{
    let mut index = load_index(index_text);
    let session = match session_id_from_filename(rollout_path) {
        Some(id) => id,
        None => String::new(),
    };
    match branch_with(&mut index, session.as_str(), name, from, number, now) {
        Ok(()) => Ok(to_pretty(&index)),
        Err(e) => Err(e),
    }
}

/// Makes a branch in the index of a session, with a random number for the
/// branch id and the time of the clock, and gives the text to write to the
/// index file. Whatever number and time come, the outcome is that of
/// `branch_session_with` for them.
pub fn branch_session(index_text: Option<&str>, rollout_path: &str, name: &str, from: &str) -> (r:
    Result<String, SessionError>)
    ensures
        exists|number: u32, now: Seq<char>|
            branch_outcome(text_view(index_text), rollout_path@, name@, from@, number, now, r),
{
    let number = random_number();
    let now = now_rfc3339();
    let r = branch_session_with(index_text, rollout_path, name, from, number, now.as_str());
    assert(branch_outcome(text_view(index_text), rollout_path@, name@, from@, number, now@, r));
    r
}

/// Makes a branch the head of the index of a session and gives the text to
/// write to the index file. `index_text` is what the file holds, `None`
/// without a file; `now` is the time as RFC 3339. On an error there is
/// nothing to write.
pub fn checkout_session_with(index_text: Option<&str>, name: &str, now: &str) -> (r: Result<
    String,
    SessionError,
>)
    ensures
        checkout_outcome(text_view(index_text), name@, now@, r),
{
    if index_text.is_none() {
        return Err(SessionError::NoBranches);
    }
    let mut index = load_index(index_text);
    match checkout_with(&mut index, name, now) {
        Ok(()) => Ok(to_pretty(&index)),
        Err(e) => Err(e),
    }
}

/// Makes a branch the head of the index of a session, at the time of the
/// clock, and gives the text to write to the index file. Whatever time
/// comes, the outcome is that of `checkout_session_with` for it.
pub fn checkout_session(index_text: Option<&str>, name: &str) -> (r: Result<String, SessionError>)
    ensures
        exists|now: Seq<char>| checkout_outcome(text_view(index_text), name@, now, r),
{
    let now = now_rfc3339();
    let r = checkout_session_with(index_text, name, now.as_str());
    assert(checkout_outcome(text_view(index_text), name@, now@, r));
    r
}

/// What `branch` reports after it made a branch.
pub fn branch_notice(name: &str, from: &str) -> (s: String)
    ensures
        s@ == "Created branch '"@ + name@ + "' at "@ + from@,
{
    let mut s = String::new();
    push_str(&mut s, "Created branch '");
    push_str(&mut s, name);
    push_str(&mut s, "' at ");
    push_str(&mut s, from);
    s
}

/// What `checkout` reports after it made a branch the head.
pub fn checkout_notice(name: &str) -> (s: String)
    ensures
        s@ == "Checked out branch '"@ + name@ + "'."@,
{
    let mut s = String::new();
    push_str(&mut s, "Checked out branch '");
    push_str(&mut s, name);
    push_str(&mut s, "'.");
    s
}

/// The keys of an index and of a branch record are different texts.
pub proof fn lemma_keys_differ()
    ensures
        "branches"@ != "head"@,
        "branches"@ != "updatedAt"@,
        "branches"@ != "sessionId"@,
        "head"@ != "updatedAt"@,
        "head"@ != "sessionId"@,
        "updatedAt"@ != "sessionId"@,
        "name"@ != "branchId"@,
        "name"@ != "baseResponseId"@,
        "name"@ != "tipResponseId"@,
        "name"@ != "createdAt"@,
{
    reveal_strlit("branches");
    reveal_strlit("head");
    reveal_strlit("updatedAt");
    reveal_strlit("sessionId");
    reveal_strlit("name");
    reveal_strlit("branchId");
    reveal_strlit("baseResponseId");
    reveal_strlit("tipResponseId");
    reveal_strlit("createdAt");
    assert("branches"@.len() == 8 && "head"@.len() == 4 && "updatedAt"@.len() == 9
        && "sessionId"@.len() == 9);
    assert("updatedAt"@[0] == 'u' && "sessionId"@[0] == 's');
    assert("name"@.len() == 4 && "branchId"@.len() == 8 && "baseResponseId"@.len() == 14
        && "tipResponseId"@.len() == 13 && "createdAt"@.len() == 9);
}

/// An index is well shaped where it is an object, or `null`, whose branches
/// are an array or missing.
pub open spec fn well_shaped(index: JsonValue) -> bool {
    index_fields(index) is Some && recorded_branches(index_fields(index)->0) is Some
}

/// The branches of a well-shaped index.
pub open spec fn shaped_branches(index: JsonValue) -> Seq<JsonValue> {
    recorded_branches(index_fields(index)->0)->0
}

/// Making a branch of a new name in a well-shaped index succeeds. The index
/// stays well shaped, has the new name beside the names it had, and has the
/// new branch as its head.
pub proof fn lemma_branched(
    index: JsonValue,
    session: Seq<char>,
    name: Seq<char>,
    from: Seq<char>,
    number: u32,
    now: Seq<char>,
)
    requires
        well_shaped(index),
        !is_named(shaped_branches(index), name),
    ensures
        branched(index, session, name, from, number, now) is Ok,
        ({
            let after = branched(index, session, name, from, number, now)->Ok_0;
            &&& well_shaped(after)
            &&& after is Object
            &&& shaped_branches(after) == branches_of(after)
            &&& shaped_branches(after) == shaped_branches(index).push(
                branch_record(branch_id(number), name, from, now),
            )
            &&& head_of(after) == Some(name)
            &&& forall|n: Seq<char>|
                is_named(shaped_branches(after), n) <==> (is_named(shaped_branches(index), n) || n
                    == name)
        }),
{
    lemma_keys_differ();
    let after = branched(index, session, name, from, number, now)->Ok_0;
    let before = shaped_branches(index);
    let record = branch_record(branch_id(number), name, from, now);
    assert(text_field(record, "name"@) == Some(name));
    assert(shaped_branches(after) == before.push(record));
    assert forall|n: Seq<char>|
        is_named(shaped_branches(after), n) <==> (is_named(before, n) || n == name) by {
        let grown = before.push(record);
        if is_named(before, n) {
            let i = choose|i: int|
                0 <= i < before.len() && text_field(#[trigger] before[i], "name"@) == Some(n);
            assert(grown[i] == before[i]);
        }
        if n == name {
            assert(text_field(grown[before.len() as int], "name"@) == Some(n));
        }
        if is_named(grown, n) {
            let i = choose|i: int|
                0 <= i < grown.len() && text_field(#[trigger] grown[i], "name"@) == Some(n);
            if i < before.len() {
                assert(grown[i] == before[i]);
            }
        }
    }
}

/// No two branches have the same name.
pub open spec fn names_unique(branches: Seq<JsonValue>) -> bool {
    forall|i: int, j: int|
        0 <= i < j < branches.len() && text_field(#[trigger] branches[i], "name"@) is Some
            ==> text_field(branches[i], "name"@) != text_field(#[trigger] branches[j], "name"@)
}

/// The invariant of a branch index: it is well shaped, the names of its
/// branches are unique, and its head, where it has one, names one of its
/// branches.
pub open spec fn index_invariant(index: JsonValue) -> bool {
    &&& well_shaped(index)
    &&& names_unique(shaped_branches(index))
    &&& head_of(index) matches Some(head) ==> is_named(shaped_branches(index), head)
}

/// The index of a session without an index file keeps the invariant.
pub proof fn lemma_new_index_invariant()
    ensures
        index_invariant(loaded(None)),
{
}

/// Making a branch keeps the invariant of the index.
pub proof fn lemma_branched_keeps_invariant(
    index: JsonValue,
    session: Seq<char>,
    name: Seq<char>,
    from: Seq<char>,
    number: u32,
    now: Seq<char>,
)
    requires
        index_invariant(index),
        branched(index, session, name, from, number, now) is Ok,
    ensures
        index_invariant(branched(index, session, name, from, number, now)->Ok_0),
{
    lemma_keys_differ();
    lemma_branched(index, session, name, from, number, now);
    let before = shaped_branches(index);
    let after = branched(index, session, name, from, number, now)->Ok_0;
    let grown = shaped_branches(after);
    let record = branch_record(branch_id(number), name, from, now);
    assert(text_field(record, "name"@) == Some(name));
    assert forall|i: int, j: int|
        0 <= i < j < grown.len() && text_field(#[trigger] grown[i], "name"@) is Some implies text_field(
        grown[i],
        "name"@,
    ) != text_field(#[trigger] grown[j], "name"@) by {
        assert(grown[i] == before[i]);
        if j < before.len() {
            assert(grown[j] == before[j]);
        } else {
            assert(grown[j] == record);
        }
    }
}

/// Making a branch the head keeps the invariant of the index.
pub proof fn lemma_checked_out_keeps_invariant(index: JsonValue, name: Seq<char>, now: Seq<char>)
    requires
        index_invariant(index),
        checked_out(index, name, now) is Ok,
    ensures
        index_invariant(checked_out(index, name, now)->Ok_0),
{
    lemma_keys_differ();
    let after = checked_out(index, name, now)->Ok_0;
    assert(shaped_branches(after) == shaped_branches(index));
    assert(branches_of(index) == shaped_branches(index));
}

/// A request for a branch.
pub ghost struct BranchRequest {
    pub name: Seq<char>,
    pub from: Seq<char>,
    pub number: u32,
    pub now: Seq<char>,
}

/// The index after the requested branches were made, one after the other.
pub open spec fn branched_all(
    index: JsonValue,
    session: Seq<char>,
    requests: Seq<BranchRequest>,
) -> Result<JsonValue, IndexFault>
    decreases requests.len(),
{
    if requests.len() == 0 {
        Ok(index)
    } else {
        match branched_all(index, session, requests.drop_last()) {
            Ok(mid) => branched(
                mid,
                session,
                requests.last().name,
                requests.last().from,
                requests.last().number,
                requests.last().now,
            ),
            Err(e) => Err(e),
        }
    }
}

/// The names of the requests differ from each other and from the names that
/// the index has.
pub open spec fn fresh_names(index: JsonValue, requests: Seq<BranchRequest>) -> bool {
    &&& forall|i: int|
        0 <= i < requests.len() ==> !is_named(shaped_branches(index), (#[trigger] requests[i]).name)
    &&& forall|i: int, j: int|
        0 <= i < j < requests.len() ==> (#[trigger] requests[i]).name != (#[trigger] requests[j]).name
}

/// Making branches of fresh names succeeds one after the other, and the
/// index then has exactly the names it had and the new ones.
pub proof fn lemma_branched_all(index: JsonValue, session: Seq<char>, requests: Seq<BranchRequest>)
    requires
        well_shaped(index),
        fresh_names(index, requests),
    ensures
        branched_all(index, session, requests) is Ok,
        ({
            let after = branched_all(index, session, requests)->Ok_0;
            &&& well_shaped(after)
            &&& requests.len() > 0 ==> after is Object && shaped_branches(after) == branches_of(
                after,
            )
            &&& forall|n: Seq<char>|
                is_named(shaped_branches(after), n) <==> (is_named(shaped_branches(index), n)
                    || exists|i: int| 0 <= i < requests.len() && (#[trigger] requests[i]).name == n)
        }),
    decreases requests.len(),
{
    if requests.len() > 0 {
        let earlier = requests.drop_last();
        let last = requests.last();
        assert forall|i: int| 0 <= i < earlier.len() implies !is_named(
            shaped_branches(index),
            (#[trigger] earlier[i]).name,
        ) by {
            assert(earlier[i] == requests[i]);
        }
        assert forall|i: int, j: int| 0 <= i < j < earlier.len() implies (#[trigger] earlier[i]).name
            != (#[trigger] earlier[j]).name by {
            assert(earlier[i] == requests[i] && earlier[j] == requests[j]);
        }
        lemma_branched_all(index, session, earlier);
        let mid = branched_all(index, session, earlier)->Ok_0;
        assert(!is_named(shaped_branches(mid), last.name)) by {
            if is_named(shaped_branches(mid), last.name) {
                assert(!is_named(shaped_branches(index), requests[requests.len() - 1].name));
                let i = choose|i: int|
                    0 <= i < earlier.len() && (#[trigger] earlier[i]).name == last.name;
                assert(earlier[i] == requests[i]);
                assert(requests[i].name != requests[requests.len() - 1].name);
            }
        }
        lemma_branched(mid, session, last.name, last.from, last.number, last.now);
        let after = branched_all(index, session, requests)->Ok_0;
        assert forall|n: Seq<char>|
            is_named(shaped_branches(after), n) <==> (is_named(shaped_branches(index), n)
                || exists|i: int| 0 <= i < requests.len() && (#[trigger] requests[i]).name == n) by {
            if exists|i: int| 0 <= i < earlier.len() && (#[trigger] earlier[i]).name == n {
                let i = choose|i: int| 0 <= i < earlier.len() && (#[trigger] earlier[i]).name == n;
                assert(requests[i].name == n);
            }
            if n == last.name {
                assert(requests[requests.len() - 1].name == n);
            }
            if exists|i: int| 0 <= i < requests.len() && (#[trigger] requests[i]).name == n {
                let i = choose|i: int| 0 <= i < requests.len() && (#[trigger] requests[i]).name == n;
                if i < earlier.len() {
                    assert(earlier[i].name == n);
                }
            }
        }
    }
}

/// After branches of fresh names were made, checking out any of them
/// succeeds and makes it the head of the index.
pub proof fn lemma_checkout_after_branches(
    index: JsonValue,
    session: Seq<char>,
    requests: Seq<BranchRequest>,
    k: int,
    now: Seq<char>,
)
    requires
        well_shaped(index),
        fresh_names(index, requests),
        0 <= k < requests.len(),
    ensures
        branched_all(index, session, requests) is Ok,
        checked_out(branched_all(index, session, requests)->Ok_0, requests[k].name, now) is Ok,
        head_of(
            checked_out(branched_all(index, session, requests)->Ok_0, requests[k].name, now)->Ok_0,
        ) == Some(requests[k].name),
{
    lemma_keys_differ();
    lemma_branched_all(index, session, requests);
    let after = branched_all(index, session, requests)->Ok_0;
    assert(is_named(shaped_branches(after), requests[k].name));
}

} // verus!
