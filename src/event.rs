//! One record of the session log, decoded into a mutation event.
use vstd::prelude::*;

verus! {

/// A file mutation recorded in the log.
#[derive(Clone, Debug)]
pub enum MutationEvent {
    /// The whole content of `file_path` was replaced; `original` is what the
    /// record says the file held before (empty when unknown or new).
    Write { file_path: String, original: String, content: String },
    /// The first occurrence of `old_fragment` in the file was replaced by
    /// `new_fragment`.
    Edit { file_path: String, old_fragment: String, new_fragment: String },
}

/// The mathematical value of a mutation event.
pub enum Mutation {
    Write { path: Seq<char>, original: Seq<char>, content: Seq<char> },
    Edit { path: Seq<char>, old: Seq<char>, new: Seq<char> },
}

impl Mutation {
    pub open spec fn path(self) -> Seq<char> {
        match self {
            Mutation::Write { path, .. } => path,
            Mutation::Edit { path, .. } => path,
        }
    }
}

impl View for MutationEvent {
    type V = Mutation;

    open spec fn view(&self) -> Mutation {
        match self {
            MutationEvent::Write { file_path, original, content } => Mutation::Write {
                path: file_path@,
                original: original@,
                content: content@,
            },
            MutationEvent::Edit { file_path, old_fragment, new_fragment } => Mutation::Edit {
                path: file_path@,
                old: old_fragment@,
                new: new_fragment@,
            },
        }
    }
}

pub open spec fn opt_view(o: Option<String>) -> Option<Seq<char>> {
    match o {
        Some(s) => Some(s@),
        None => None,
    }
}

/// The event that the text fields of one record stand for: a path and a
/// content make a write (a missing original reads as empty); a path and both
/// fragments make an edit; anything else is no event.
pub open spec fn event_of_fields(
    path: Option<Seq<char>>,
    original: Option<Seq<char>>,
    content: Option<Seq<char>>,
    old: Option<Seq<char>>,
    new: Option<Seq<char>>,
) -> Option<Mutation> {
    match (path, content, old, new) {
        (None, _, _, _) => None,
        (Some(p), Some(c), _, _) => Some(
            Mutation::Write {
                path: p,
                original: match original {
                    Some(o) => o,
                    None => Seq::empty(),
                },
                content: c,
            },
        ),
        (Some(p), None, Some(o), Some(n)) => Some(Mutation::Edit { path: p, old: o, new: n }),
        _ => None,
    }
}

pub open spec fn event_view(e: Option<MutationEvent>) -> Option<Mutation> {
    match e {
        Some(ev) => Some(ev@),
        None => None,
    }
}

/// Builds the event that a record's text fields describe.
pub fn event_from_fields(
    file_path: Option<String>,
    original: Option<String>,
    content: Option<String>,
    old_fragment: Option<String>,
    new_fragment: Option<String>,
) -> (r: Option<MutationEvent>)
    ensures
        event_view(r) == event_of_fields(
            opt_view(file_path),
            opt_view(original),
            opt_view(content),
            opt_view(old_fragment),
            opt_view(new_fragment),
        ),
{
    match file_path {
        None => None,
        Some(p) => match content {
            Some(c) => {
                let o = match original {
                    Some(o) => o,
                    None => String::new(),
                };
                Some(MutationEvent::Write { file_path: p, original: o, content: c })
            },
            None => match (old_fragment, new_fragment) {
                (Some(o), Some(n)) => Some(
                    MutationEvent::Edit { file_path: p, old_fragment: o, new_fragment: n },
                ),
                _ => None,
            },
        },
    }
}

/// A text member of a JSON document as read for decoding: `None` when the
/// text is not one JSON value; `Ok(None)` for a member that is absent or
/// `null`; `Ok(Some(t))` for a string; `Err` for any other value.
pub type TextRead = Option<Result<Option<Seq<char>>, ()>>;

/// What `serde_json` reads from `text` at member `key` of its top-level object.
pub uninterp spec fn json_member_of(text: Seq<char>, key: Seq<char>) -> Option<
    Result<Option<Seq<char>>, ()>,
>;

/// What `serde_json` reads from `text` at each of `keys`, members of member
/// `outer` of its top-level object: `None` when the text is not one JSON
/// value, else one read per key, in order.
pub uninterp spec fn json_nested_members_of(
    text: Seq<char>,
    outer: Seq<char>,
    keys: Seq<Seq<char>>,
) -> Option<Seq<Result<Option<Seq<char>>, ()>>>;

pub open spec fn read_view(r: Option<Result<Option<String>, ()>>) -> TextRead {
    match r {
        None => None,
        Some(Err(e)) => Some(Err(e)),
        Some(Ok(o)) => Some(Ok(opt_view(o))),
    }
}

/// Relies on `serde_json::from_str` into a `serde_json::Value`, then
/// `Value::get` with a string key (`None` for a missing key or a non-object)
/// and the variants `Null` and `String`.
#[verifier::external_body]
pub(crate) fn json_member_text(text: &str, key: &str) -> (r: Option<Result<Option<String>, ()>>)
    ensures
        read_view(r) == json_member_of(text@, key@),
{
    let v: serde_json::Value = serde_json::from_str(text).ok()?;
    match v.get(key) {
        None | Some(serde_json::Value::Null) => Some(Ok(None)),
        Some(serde_json::Value::String(t)) => Some(Ok(Some(t.clone()))),
        Some(_) => Some(Err(())),
    }
}

pub open spec fn member_view(m: Result<Option<String>, ()>) -> Result<Option<Seq<char>>, ()> {
    match m {
        Err(e) => Err(e),
        Ok(o) => Ok(opt_view(o)),
    }
}

pub open spec fn members_view(r: Option<Vec<Result<Option<String>, ()>>>) -> Option<
    Seq<Result<Option<Seq<char>>, ()>>,
> {
    match r {
        None => None,
        Some(v) => Some(v@.map_values(|m: Result<Option<String>, ()>| member_view(m))),
    }
}

pub open spec fn keys_view(keys: Seq<&str>) -> Seq<Seq<char>> {
    keys.map_values(|k: &str| k@)
}

/// Relies on `serde_json::from_str` into a `serde_json::Value`, parsed once,
/// then `Value::get` with string keys (`None` for a missing key or a
/// non-object) and the variants `Null` and `String`, for each key in order.
#[verifier::external_body]
fn json_nested_members_text(text: &str, outer: &str, keys: &Vec<&str>) -> (r: Option<
    Vec<Result<Option<String>, ()>>,
>)
    ensures
        members_view(r) == json_nested_members_of(text@, outer@, keys_view(keys@)),
{
    let v: serde_json::Value = serde_json::from_str(text).ok()?;
    let o = v.get(outer);
    Some(keys.iter().map(|k| match o.and_then(|o| o.get(*k)) {
        None | Some(serde_json::Value::Null) => Ok(None),
        Some(serde_json::Value::String(t)) => Ok(Some(t.clone())),
        Some(_) => Err(()),
    }).collect())
}

/// The members of a record's `toolUseResult` object that decoding reads.
pub open spec fn tool_keys() -> Seq<Seq<char>> {
    seq!["filePath"@, "originalFile"@, "content"@, "oldString"@, "newString"@]
}

pub open spec fn field_value(f: Result<Option<Seq<char>>, ()>) -> Option<Seq<char>> {
    match f {
        Ok(o) => o,
        Err(_) => None,
    }
}

/// The event one log line stands for: none when the line is not JSON or
/// one of the five members holds a non-string; else what the members say.
pub open spec fn decoded(line: Seq<char>) -> Option<Mutation> {
    match json_nested_members_of(line, "toolUseResult"@, tool_keys()) {
        Some(f) => if f.len() == 5 && f[0] is Ok && f[1] is Ok && f[2] is Ok && f[3] is Ok
            && f[4] is Ok {
            event_of_fields(
                field_value(f[0]),
                field_value(f[1]),
                field_value(f[2]),
                field_value(f[3]),
                field_value(f[4]),
            )
        } else {
            None
        },
        None => None,
    }
}

/// The last read of `reads`, taken off, when it is text or absent.
fn pop_member(reads: &mut Vec<Result<Option<String>, ()>>) -> (r: Option<Option<String>>)
    requires
        old(reads)@.len() > 0,
    ensures
        final(reads)@ == old(reads)@.drop_last(),
        r is Some <==> old(reads)@.last() is Ok,
        r matches Some(o) ==> opt_view(o) == field_value(member_view(old(reads)@.last())),
{
    match reads.pop() {
        Some(Ok(o)) => Some(o),
        _ => None,
    }
}

/// Decodes one log line. A record whose `toolUseResult` object carries a
/// `filePath` with `content` is a write (`originalFile` optional); one with a
/// `filePath`, `oldString` and `newString` is an edit. Lines that are not
/// JSON, lack those members, or hold a non-string where text belongs give
/// `None`.
pub fn decode_record(line: &str) -> (r: Option<MutationEvent>)
    ensures
        event_view(r) == decoded(line@),
{
    let keys: Vec<&str> = vec!["filePath", "originalFile", "content", "oldString", "newString"];
    assert(keys_view(keys@) =~= tool_keys());
    let mut reads = match json_nested_members_text(line, "toolUseResult", &keys) {
        Some(v) => v,
        None => return None,
    };
    if reads.len() != 5 {
        return None;
    }
    let new_fragment = match pop_member(&mut reads) {
        Some(x) => x,
        None => return None,
    };
    let old_fragment = match pop_member(&mut reads) {
        Some(x) => x,
        None => return None,
    };
    let content = match pop_member(&mut reads) {
        Some(x) => x,
        None => return None,
    };
    let original = match pop_member(&mut reads) {
        Some(x) => x,
        None => return None,
    };
    let file_path = match pop_member(&mut reads) {
        Some(x) => x,
        None => return None,
    };
    event_from_fields(file_path, original, content, old_fragment, new_fragment)
}

} // verus!
