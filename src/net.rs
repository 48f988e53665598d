//! Aggregation of the reconciled log into net added and removed lines over
//! the files that still exist.
use crate::cache::{CacheModel, DiffCache};
use crate::differ::{added_lines, compute_diff, diff_agrees, lemma_diff_counts, removed_lines};
use crate::ledger::{pair_view, FileModel, FileRecord, Ledger};
use crate::text::{lemma_line_count_bound, normalized};
use vstd::prelude::*;

verus! {

pub open spec fn chain_added(ch: Seq<(Seq<char>, Seq<char>)>) -> nat
    decreases ch.len(),
{
    if ch.len() == 0 {
        0
    } else {
        chain_added(ch.drop_last()) + added_lines(ch.last().0, ch.last().1)
    }
}

pub open spec fn chain_removed(ch: Seq<(Seq<char>, Seq<char>)>) -> nat
    decreases ch.len(),
{
    if ch.len() == 0 {
        0
    } else {
        chain_removed(ch.drop_last()) + removed_lines(ch.last().0, ch.last().1)
    }
}

/// Characters of a pair plus one line of slack on each side: a bound on
/// what its diff can count.
pub open spec fn pair_weight(a: Seq<char>, b: Seq<char>) -> nat {
    a.len() + b.len() + 2
}

pub open spec fn chain_weight(ch: Seq<(Seq<char>, Seq<char>)>) -> nat
    decreases ch.len(),
{
    if ch.len() == 0 {
        0
    } else {
        chain_weight(ch.drop_last()) + pair_weight(ch.last().0, ch.last().1)
    }
}

/// Lines one file's record adds: its written pair and each chain entry.
pub open spec fn file_added(f: FileModel) -> nat {
    chain_added(f.chain) + match f.written {
        Some(t) => added_lines(t.0, t.1),
        None => 0,
    }
}

/// Lines one file's record removes.
pub open spec fn file_removed(f: FileModel) -> nat {
    chain_removed(f.chain) + match f.written {
        Some(t) => removed_lines(t.0, t.1),
        None => 0,
    }
}

pub open spec fn file_weight(f: FileModel) -> nat {
    chain_weight(f.chain) + match f.written {
        Some(t) => pair_weight(t.0, t.1),
        None => 0,
    }
}

/// The diff facts hold of every pair of a file's record.
pub open spec fn file_agrees(f: FileModel) -> bool {
    &&& forall|k: int| 0 <= k < f.chain.len() ==> diff_agrees(#[trigger] f.chain[k].0, f.chain[k].1)
    &&& f.written matches Some(t) ==> diff_agrees(t.0, t.1)
}

/// Lines added over the records whose file is present.
pub open spec fn total_added(l: Seq<FileModel>, present: Seq<bool>) -> nat
    decreases l.len(),
{
    if l.len() == 0 {
        0
    } else {
        total_added(l.drop_last(), present) + if present[l.len() - 1] {
            file_added(l.last())
        } else {
            0
        }
    }
}

/// Lines removed over the records whose file is present.
pub open spec fn total_removed(l: Seq<FileModel>, present: Seq<bool>) -> nat
    decreases l.len(),
{
    if l.len() == 0 {
        0
    } else {
        total_removed(l.drop_last(), present) + if present[l.len() - 1] {
            file_removed(l.last())
        } else {
            0
        }
    }
}

pub open spec fn ledger_weight(l: Seq<FileModel>) -> nat
    decreases l.len(),
{
    if l.len() == 0 {
        0
    } else {
        ledger_weight(l.drop_last()) + file_weight(l.last())
    }
}

/// The paths of the records whose file is present, in order.
pub open spec fn present_paths(l: Seq<FileModel>, present: Seq<bool>) -> Seq<Seq<char>>
    decreases l.len(),
{
    if l.len() == 0 {
        Seq::empty()
    } else if present[l.len() - 1] {
        present_paths(l.drop_last(), present).push(l.last().path)
    } else {
        present_paths(l.drop_last(), present)
    }
}

/// The cache record of a full computation.
pub open spec fn net_record(l: Seq<FileModel>, present: Seq<bool>, byte_offset: nat) -> CacheModel {
    CacheModel {
        byte_offset,
        added: total_added(l, present),
        removed: total_removed(l, present),
        files: present_paths(l, present),
    }
}

/// A diff's counts are bounded by the pair's weight.
proof fn lemma_pair_bound(a: Seq<char>, b: Seq<char>)
    requires
        diff_agrees(a, b),
    ensures
        added_lines(a, b) + removed_lines(a, b) <= pair_weight(a, b),
{
    lemma_diff_counts(a, b);
    lemma_line_count_bound(normalized(a));
    lemma_line_count_bound(normalized(b));
}

proof fn lemma_prefix_step<T>(s: Seq<T>, i: int)
    requires
        0 <= i < s.len(),
    ensures
        s.subrange(0, i + 1).drop_last() == s.subrange(0, i),
        s.subrange(0, i + 1).last() == s[i],
{
    assert(s.subrange(0, i + 1).drop_last() =~= s.subrange(0, i));
}

proof fn lemma_chain_weight_prefix(ch: Seq<(Seq<char>, Seq<char>)>, i: int)
    requires
        0 <= i <= ch.len(),
    ensures
        chain_weight(ch.subrange(0, i)) <= chain_weight(ch),
    decreases ch.len() - i,
{
    if i < ch.len() {
        lemma_chain_weight_prefix(ch, i + 1);
        lemma_prefix_step(ch, i);
    } else {
        assert(ch.subrange(0, i) =~= ch);
    }
}

/// Lines added and removed by one file's record.
fn file_counts(f: &FileRecord) -> (r: (usize, usize))
    requires
        file_weight(f@) <= usize::MAX,
    ensures
        r.0 == file_added(f@),
        r.1 == file_removed(f@),
        r.0 + r.1 <= file_weight(f@),
        file_agrees(f@),
{
    let ghost ch = f@.chain;
    let mut added: usize = 0;
    let mut removed: usize = 0;
    let mut k: usize = 0;
    proof {
        lemma_chain_weight_prefix(ch, 0);
    }
    while k < f.chain.len()
        invariant
            0 <= k <= f.chain.len(),
            ch == f@.chain,
            ch.len() == f.chain@.len(),
            file_weight(f@) <= usize::MAX,
            added == chain_added(ch.subrange(0, k as int)),
            removed == chain_removed(ch.subrange(0, k as int)),
            added + removed <= chain_weight(ch.subrange(0, k as int)),
            forall|j: int| 0 <= j < k ==> diff_agrees(#[trigger] ch[j].0, ch[j].1),
        decreases f.chain.len() - k,
    {
        assert(ch[k as int] == pair_view(f.chain@[k as int]));
        let (a, r) = compute_diff(f.chain[k].0.as_str(), f.chain[k].1.as_str());
        proof {
            lemma_prefix_step(ch, k as int);
            lemma_pair_bound(ch[k as int].0, ch[k as int].1);
            lemma_chain_weight_prefix(ch, k as int + 1);
        }
        added = added + a;
        removed = removed + r;
        k = k + 1;
    }
    assert(ch.subrange(0, ch.len() as int) =~= ch);
    match &f.written {
        Some(t) => {
            let (a, r) = compute_diff(t.0.as_str(), t.1.as_str());
            proof {
                lemma_pair_bound(t.0@, t.1@);
            }
            (added + a, removed + r)
        },
        None => (added, removed),
    }
}

/// Net lines added and removed by the reconciled log, over the files whose
/// `present` entry is set (their existence confirmed now); the other records
/// contribute nothing. Returns the record to cache, with `byte_offset` as
/// the log size it was computed at.
pub fn calculate_net_diff(ledger: &Ledger, present: &Vec<bool>, byte_offset: u64) -> (r: DiffCache)
    requires
        present@.len() == ledger@.len(),
        ledger_weight(ledger@) <= usize::MAX,
    ensures
        r@ == net_record(ledger@, present@, byte_offset as nat),
        forall|i: int| 0 <= i < ledger@.len() && present@[i] ==> file_agrees(#[trigger] ledger@[i]),
{
    let ghost l = ledger@;
    let mut added: usize = 0;
    let mut removed: usize = 0;
    let mut files: Vec<String> = Vec::new();
    let mut i: usize = 0;
    while i < ledger.files.len()
        invariant
            0 <= i <= ledger.files.len(),
            l == ledger@,
            l.len() == ledger.files@.len(),
            present@.len() == l.len(),
            ledger_weight(l) <= usize::MAX,
            added == total_added(l.subrange(0, i as int), present@),
            removed == total_removed(l.subrange(0, i as int), present@),
            added + removed <= ledger_weight(l.subrange(0, i as int)),
            files@.map_values(|s: String| s@) == present_paths(l.subrange(0, i as int), present@),
            forall|j: int| 0 <= j < i && present@[j] ==> file_agrees(#[trigger] l[j]),
        decreases ledger.files.len() - i,
    {
        proof {
            lemma_prefix_step(l, i as int);
            lemma_weight_prefix(l, i as int + 1);
            assert(ledger_weight(l.subrange(0, i as int + 1)) == ledger_weight(l.subrange(0, i as int)) + file_weight(l[i as int]));
        }
        if present[i] {
            let (a, r) = file_counts(&ledger.files[i]);
            added = added + a;
            removed = removed + r;
            files.push(ledger.files[i].path.clone());
            proof {
                assert(files@.map_values(|s: String| s@) =~= present_paths(l.subrange(0, i as int), present@).push(l[i as int].path));
            }
        }
        i = i + 1;
    }
    assert(l.subrange(0, l.len() as int) =~= l);
    DiffCache { byte_offset, added, removed, files }
}

proof fn lemma_weight_prefix(l: Seq<FileModel>, i: int)
    requires
        0 <= i <= l.len(),
    ensures
        ledger_weight(l.subrange(0, i)) <= ledger_weight(l),
    decreases l.len() - i,
{
    if i < l.len() {
        lemma_weight_prefix(l, i + 1);
        lemma_prefix_step(l, i);
    } else {
        assert(l.subrange(0, i) =~= l);
    }
}

/// `w` plus the weight of a pair, when that fits in `usize`.
fn add_pair_weight(w: usize, a: &String, b: &String) -> (r: Option<usize>)
    ensures
        r matches Some(v) ==> v == w + pair_weight(a@, b@),
        r is None ==> w + pair_weight(a@, b@) > usize::MAX,
{
    let la = a.as_str().unicode_len();
    let lb = b.as_str().unicode_len();
    if la > usize::MAX - w {
        return None;
    }
    let w1 = w + la;
    if lb > usize::MAX - w1 {
        return None;
    }
    let w2 = w1 + lb;
    if 2 > usize::MAX - w2 {
        return None;
    }
    Some(w2 + 2)
}

/// Whether the ledger is small enough for `calculate_net_diff`: its weight
/// (characters of all texts plus two per pair) fits in `usize`.
pub fn ledger_fits(ledger: &Ledger) -> (r: bool)
    ensures
        r == (ledger_weight(ledger@) <= usize::MAX),
{
    let ghost l = ledger@;
    let mut w: usize = 0;
    let mut i: usize = 0;
    while i < ledger.files.len()
        invariant
            0 <= i <= ledger.files.len(),
            l == ledger@,
            l.len() == ledger.files@.len(),
            w == ledger_weight(l.subrange(0, i as int)),
        decreases ledger.files.len() - i,
    {
        let f = &ledger.files[i];
        let ghost ch = f@.chain;
        proof {
            lemma_prefix_step(l, i as int);
            lemma_weight_prefix(l, i as int + 1);
            lemma_chain_weight_prefix(ch, 0);
        }
        let ghost base = w as nat;
        let mut k: usize = 0;
        while k < f.chain.len()
            invariant
                0 <= k <= f.chain.len(),
                ch == f@.chain,
                ch.len() == f.chain@.len(),
                l == ledger@,
                base + file_weight(f@) <= ledger_weight(l),
                w == base + chain_weight(ch.subrange(0, k as int)),
            decreases f.chain.len() - k,
        {
            assert(ch[k as int] == pair_view(f.chain@[k as int]));
            proof {
                lemma_prefix_step(ch, k as int);
                lemma_chain_weight_prefix(ch, k as int + 1);
            }
            assert(chain_weight(ch.subrange(0, k as int + 1)) == chain_weight(
                ch.subrange(0, k as int),
            ) + pair_weight(ch[k as int].0, ch[k as int].1));
            assert(chain_weight(ch) <= file_weight(f@));
            match add_pair_weight(w, &f.chain[k].0, &f.chain[k].1) {
                Some(v) => w = v,
                None => return false,
            }
            k = k + 1;
        }
        assert(ch.subrange(0, ch.len() as int) =~= ch);
        match &f.written {
            Some(t) => match add_pair_weight(w, &t.0, &t.1) {
                Some(v) => w = v,
                None => return false,
            },
            None => {},
        }
        i = i + 1;
    }
    assert(l.subrange(0, l.len() as int) =~= l);
    true
}

} // verus!
