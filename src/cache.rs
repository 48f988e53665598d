//! The persisted result of the last full computation for one log, and the
//! decision whether it still holds.
use crate::text::{contains, str_contains};
use vstd::prelude::*;

verus! {

/// The last computed totals for one log, the paths that contributed, and
/// the log's size in bytes when they were computed.
#[derive(Clone, Debug)]
pub struct DiffCache {
    pub byte_offset: u64,
    pub added: usize,
    pub removed: usize,
    pub files: Vec<String>,
}

/// The mathematical value of a cache record.
pub struct CacheModel {
    pub byte_offset: nat,
    pub added: nat,
    pub removed: nat,
    pub files: Seq<Seq<char>>,
}

impl View for DiffCache {
    type V = CacheModel;

    open spec fn view(&self) -> CacheModel {
        CacheModel {
            byte_offset: self.byte_offset as nat,
            added: self.added as nat,
            removed: self.removed as nat,
            files: self.files@.map_values(|s: String| s@),
        }
    }
}

/// The text whose presence in appended log bytes marks a new file operation.
pub const FILE_OP_MARKER: &'static str = "\"filePath\"";

pub open spec fn all_true(s: Seq<bool>) -> bool {
    forall|i: int| 0 <= i < s.len() ==> s[i]
}

/// The appended part of the log was read and names no file operation.
pub open spec fn no_new_ops(appended: Option<Seq<char>>) -> bool {
    match appended {
        Some(t) => !contains(t, FILE_OP_MARKER@),
        None => false,
    }
}

/// A cached record still holds: every file it lists exists, and the bytes
/// appended to the log since were read and hold no file operation.
pub open spec fn cache_valid(files_exist: Seq<bool>, appended: Option<Seq<char>>) -> bool {
    all_true(files_exist) && no_new_ops(appended)
}

/// The totals that a cache lookup answers with.
pub open spec fn cache_answer(
    c: CacheModel,
    files_exist: Seq<bool>,
    appended: Option<Seq<char>>,
) -> Option<(nat, nat)> {
    if cache_valid(files_exist, appended) {
        Some((c.added, c.removed))
    } else {
        None
    }
}

/// Whether bytes appended to the log mention a file operation.
pub fn has_new_file_ops(appended: &str) -> (r: bool)
    ensures
        r == contains(appended@, FILE_OP_MARKER@),
{
    str_contains(appended, FILE_OP_MARKER)
}

/// Checks a stored record: `files_exist[i]` tells whether `cache.files[i]`
/// exists now, and `appended` is the text of the log after
/// `cache.byte_offset` (`None` when it could not be read).
pub fn load_cache(cache: DiffCache, files_exist: &Vec<bool>, appended: Option<String>) -> (r:
    Option<DiffCache>)
    requires
        files_exist@.len() == cache.files@.len(),
    ensures
        r is Some <==> cache_valid(
            files_exist@,
            match appended {
                Some(t) => Some(t@),
                None => None,
            },
        ),
        r matches Some(c) ==> c == cache,
{
    let mut i: usize = 0;
    while i < files_exist.len()
        invariant
            0 <= i <= files_exist.len(),
            forall|k: int| 0 <= k < i ==> files_exist@[k],
        decreases files_exist.len() - i,
    {
        if !files_exist[i] {
            return None;
        }
        i = i + 1;
    }
    match appended {
        None => None,
        Some(t) => {
            if has_new_file_ops(t.as_str()) {
                None
            } else {
                Some(cache)
            }
        },
    }
}

/// A lowercase hexadecimal digit.
pub open spec fn hex_digit(d: nat) -> char {
    seq!['0', '1', '2', '3', '4', '5', '6', '7', '8', '9', 'a', 'b', 'c', 'd', 'e', 'f'][d as int]
}

/// `n` in lowercase hexadecimal, without prefix or leading zeros.
pub open spec fn hex_text(n: nat) -> Seq<char>
    decreases n,
{
    if n < 16 {
        seq![hex_digit(n)]
    } else {
        hex_text(n / 16).push(hex_digit(n % 16))
    }
}

/// The cache file of the log whose path hashes to `h`.
pub open spec fn cache_path_of(h: u64) -> Seq<char> {
    "/tmp/statusline_cache_"@ + hex_text(h as nat) + ".json"@
}

/// What `DefaultHasher::new()` gives for a path fed through `Hash for str`.
pub uninterp spec fn path_hash_of(s: Seq<char>) -> u64;

/// Relies on `std::collections::hash_map::DefaultHasher` as made by `new`,
/// fed the path through `Hash for str`: `new` uses fixed keys, so the hash
/// depends on the path alone.
#[verifier::external_body]
fn path_hash(s: &str) -> (r: u64)
    ensures
        r == path_hash_of(s@),
{
    let mut hasher = std::collections::hash_map::DefaultHasher::new();
    std::hash::Hash::hash(s, &mut hasher);
    std::hash::Hasher::finish(&hasher)
}

/// The text of one lowercase hexadecimal digit.
fn hex_digit_text(d: u64) -> (r: &'static str)
    requires
        d < 16,
    ensures
        r@ == seq![hex_digit(d as nat)],
{
    proof {
        reveal_strlit("0");
        reveal_strlit("1");
        reveal_strlit("2");
        reveal_strlit("3");
        reveal_strlit("4");
        reveal_strlit("5");
        reveal_strlit("6");
        reveal_strlit("7");
        reveal_strlit("8");
        reveal_strlit("9");
        reveal_strlit("a");
        reveal_strlit("b");
        reveal_strlit("c");
        reveal_strlit("d");
        reveal_strlit("e");
        reveal_strlit("f");
    }
    match d {
        0 => "0",
        1 => "1",
        2 => "2",
        3 => "3",
        4 => "4",
        5 => "5",
        6 => "6",
        7 => "7",
        8 => "8",
        9 => "9",
        10 => "a",
        11 => "b",
        12 => "c",
        13 => "d",
        14 => "e",
        _ => "f",
    }
}

/// Appends `n` in lowercase hexadecimal.
fn push_hex(s: &mut String, n: u64)
    ensures
        final(s)@ == old(s)@ + hex_text(n as nat),
    decreases n,
{
    if n >= 16 {
        push_hex(s, n / 16);
    }
    s.append(hex_digit_text(n % 16));
    assert(s@ =~= old(s)@ + hex_text(n as nat));
}

/// The cache file path for a given path hash.
pub fn cache_path_for_hash(h: u64) -> (r: String)
    ensures
        r@ == cache_path_of(h),
{
    let mut r = String::from_str("/tmp/statusline_cache_");
    push_hex(&mut r, h);
    r.append(".json");
    r
}

/// The cache file path of a log: a fixed directory and prefix, then the
/// hash of the log's path in hexadecimal.
pub fn get_cache_path(transcript_path: &str) -> (r: String)
    ensures
        r@ == cache_path_of(path_hash_of(transcript_path@)),
{
    cache_path_for_hash(path_hash(transcript_path))
}

} // verus!
