//! Line-granularity diff counts between two texts.
use crate::text::{line_count, normalize_newline, normalized};
use vstd::prelude::*;

verus! {

/// What a diff does with one line.
#[derive(PartialEq, Eq, Structural, Clone, Copy, Debug)]
pub enum LineTag {
    Equal,
    Delete,
    Insert,
}

/// How many entries of `t` carry `tag`.
pub open spec fn tag_count(t: Seq<LineTag>, tag: LineTag) -> nat
    decreases t.len(),
{
    if t.len() == 0 {
        0
    } else {
        tag_count(t.drop_last(), tag) + if t.last() == tag { 1nat } else { 0nat }
    }
}

/// The per-line tags of the line diff that `similar` computes from `old` to `new`.
pub uninterp spec fn line_diff_tags(old: Seq<char>, new: Seq<char>) -> Seq<LineTag>;

/// Lines inserted going from `old` to `new`, after newline normalisation.
pub open spec fn added_lines(old: Seq<char>, new: Seq<char>) -> nat {
    tag_count(line_diff_tags(normalized(old), normalized(new)), LineTag::Insert)
}

/// Lines deleted going from `old` to `new`, after newline normalisation.
pub open spec fn removed_lines(old: Seq<char>, new: Seq<char>) -> nat {
    tag_count(line_diff_tags(normalized(old), normalized(new)), LineTag::Delete)
}

/// Relies on `similar::TextDiff::from_lines` and `iter_all_changes`: one
/// change per line; the equal and deleted lines are the lines of `old`, the
/// equal and inserted ones the lines of `new`. The default configuration has
/// no deadline, so the result depends on the two texts alone, and Myers'
/// shortest edit script for two identical texts has only equal lines.
#[verifier::external_body]
fn diff_line_tags(old: &str, new: &str) -> (r: Vec<LineTag>)
    ensures
        r@ == line_diff_tags(old@, new@),
        tag_count(r@, LineTag::Equal) + tag_count(r@, LineTag::Delete) == line_count(old@),
        tag_count(r@, LineTag::Equal) + tag_count(r@, LineTag::Insert) == line_count(new@),
        old@ == new@ ==> tag_count(r@, LineTag::Insert) == 0 && tag_count(r@, LineTag::Delete)
            == 0,
{
    let diff = similar::TextDiff::from_lines(old, new);
    diff.iter_all_changes().map(|c| match c.tag() {
        similar::ChangeTag::Equal => LineTag::Equal,
        similar::ChangeTag::Delete => LineTag::Delete,
        similar::ChangeTag::Insert => LineTag::Insert,
    }).collect()
}

/// The line-count facts that every diff computed by `diff_line_tags` meets:
/// equal and deleted lines make up `old`, equal and inserted lines `new`.
pub open spec fn tags_agree(old: Seq<char>, new: Seq<char>) -> bool {
    let t = line_diff_tags(old, new);
    &&& tag_count(t, LineTag::Equal) + tag_count(t, LineTag::Delete) == line_count(old)
    &&& tag_count(t, LineTag::Equal) + tag_count(t, LineTag::Insert) == line_count(new)
}

/// The diff facts of the normalised pair of texts, as `compute_diff` meets them.
pub open spec fn diff_agrees(old: Seq<char>, new: Seq<char>) -> bool {
    tags_agree(normalized(old), normalized(new))
}

/// What the diff facts give on the counts: neither exceeds its side's
/// lines, and both differ from their side's lines by the same equal lines.
pub proof fn lemma_diff_counts(old: Seq<char>, new: Seq<char>)
    requires
        diff_agrees(old, new),
    ensures
        added_lines(old, new) <= line_count(normalized(new)),
        removed_lines(old, new) <= line_count(normalized(old)),
        line_count(normalized(new)) - added_lines(old, new) == line_count(normalized(old))
            - removed_lines(old, new),
{
}

/// The counts of `t` up to `i`, extended by one entry.
proof fn lemma_tag_count_step(t: Seq<LineTag>, i: int, tag: LineTag)
    requires
        0 <= i < t.len(),
    ensures
        tag_count(t.subrange(0, i + 1), tag) == tag_count(t.subrange(0, i), tag) + if t[i]
            == tag {
            1nat
        } else {
            0nat
        },
{
    assert(t.subrange(0, i + 1).drop_last() =~= t.subrange(0, i));
}

/// Lines inserted and deleted by a line diff from `old` to `new`, each
/// normalised to end with exactly one line terminator first.
pub fn compute_diff(old: &str, new: &str) -> (r: (usize, usize))
    ensures
        r.0 == added_lines(old@, new@),
        r.1 == removed_lines(old@, new@),
        diff_agrees(old@, new@),
        old@.len() == 0 ==> r.1 == 0 && r.0 == line_count(normalized(new@)),
        old@ == new@ ==> r == (0usize, 0usize),
{
    let old_normalized = normalize_newline(old);
    let new_normalized = normalize_newline(new);
    let tags = diff_line_tags(old_normalized.as_str(), new_normalized.as_str());
    let mut added: usize = 0;
    let mut removed: usize = 0;
    let mut i: usize = 0;
    while i < tags.len()
        invariant
            0 <= i <= tags.len(),
            added == tag_count(tags@.subrange(0, i as int), LineTag::Insert),
            removed == tag_count(tags@.subrange(0, i as int), LineTag::Delete),
            added + removed <= i,
        decreases tags.len() - i,
    {
        proof {
            lemma_tag_count_step(tags@, i as int, LineTag::Insert);
            lemma_tag_count_step(tags@, i as int, LineTag::Delete);
        }
        match tags[i] {
            LineTag::Insert => added = added + 1,
            LineTag::Delete => removed = removed + 1,
            LineTag::Equal => {},
        }
        i = i + 1;
    }
    assert(tags@.subrange(0, tags@.len() as int) =~= tags@);
    proof {
        if old@.len() == 0 {
            assert(normalized(old@) =~= Seq::<char>::empty());
            assert(line_count(normalized(old@)) == 0);
        }
    }
    (added, removed)
}

} // verus!
