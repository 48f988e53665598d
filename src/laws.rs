//! Properties of the reconciliation and its totals that hold for all inputs.
use crate::cache::{cache_answer, cache_valid};
use crate::differ::{added_lines, diff_agrees, lemma_diff_counts, removed_lines};
use crate::event::Mutation;
use crate::event::decoded;
use crate::ledger::{
    chain_edit, decoded_events, lemma_chain_from, lemma_reconcile_unique, lemma_path_from, path_from, paths_unique, reconcile, step,
    FileModel,
};
use crate::net::{file_added, file_agrees, file_removed, net_record, total_added, total_removed};
use crate::text::{
    contains, ends_line, find_from, lemma_line_count_nl, lemma_nl_concat, lemma_replace_split,
    line_count, nl_count, no_cr, normalized, replace_first,
};
use vstd::prelude::*;

verus! {

/// Totals of a ledger of one record whose file is present.
proof fn lemma_single_totals(f: FileModel)
    ensures
        total_added(seq![f], seq![true]) == file_added(f),
        total_removed(seq![f], seq![true]) == file_removed(f),
{
    reveal_with_fuel(total_added, 2);
    reveal_with_fuel(total_removed, 2);
    assert(seq![f].drop_last() =~= Seq::<FileModel>::empty());
}

/// Chain totals of a chain of one entry.
proof fn lemma_single_chain(a: Seq<char>, b: Seq<char>)
    ensures
        crate::net::chain_added(seq![(a, b)]) == added_lines(a, b),
        crate::net::chain_removed(seq![(a, b)]) == removed_lines(a, b),
{
    reveal_with_fuel(crate::net::chain_added, 2);
    reveal_with_fuel(crate::net::chain_removed, 2);
    assert(seq![(a, b)].drop_last() =~= Seq::<(Seq<char>, Seq<char>)>::empty());
}

/// The state after one event on an empty log.
proof fn lemma_first_event(ev: Mutation)
    ensures
        reconcile(seq![ev]) == step(Seq::<FileModel>::empty(), ev),
{
    reveal_with_fuel(reconcile, 2);
    assert(seq![ev].drop_last() =~= Seq::<Mutation>::empty());
}

/// A single write of `content` over an empty snapshot, to a file that still
/// exists, counts every line of the content as added and none as removed
/// (given the diff facts that `calculate_net_diff` ensures of present files).
pub proof fn lemma_single_write_counts(path: Seq<char>, content: Seq<char>)
    requires
        file_agrees(reconcile(seq![Mutation::Write { path, original: Seq::empty(), content }])[0]),
    ensures
        ({
            let l = reconcile(seq![Mutation::Write { path, original: Seq::empty(), content }]);
            &&& l.len() == 1
            &&& total_added(l, seq![true]) == line_count(normalized(content))
            &&& total_removed(l, seq![true]) == 0
        }),
{
    let ev = Mutation::Write { path, original: Seq::empty(), content };
    lemma_first_event(ev);
    let l = reconcile(seq![ev]);
    assert(l =~= seq![FileModel { path, written: Some((Seq::empty(), content)), chain: Seq::empty() }]);
    lemma_single_totals(l[0]);
    lemma_diff_counts(Seq::empty(), content);
    assert(normalized(Seq::<char>::empty()) =~= Seq::<char>::empty());
}

/// Records whose file no longer exists contribute nothing: when no file of
/// the log is present the totals are zero, whatever was written.
pub proof fn lemma_deleted_files_count_nothing(l: Seq<FileModel>, present: Seq<bool>)
    requires
        l.len() <= present.len(),
        forall|i: int| 0 <= i < present.len() ==> !present[i],
    ensures
        total_added(l, present) == 0,
        total_removed(l, present) == 0,
    decreases l.len(),
{
    if l.len() > 0 {
        lemma_deleted_files_count_nothing(l.drop_last(), present);
    }
}

/// The events of two stretches of log lines are those of each, in order.
pub proof fn lemma_decoded_events_concat(a: Seq<Seq<char>>, b: Seq<Seq<char>>)
    ensures
        decoded_events(a + b) == decoded_events(a) + decoded_events(b),
    decreases b.len(),
{
    if b.len() == 0 {
        assert(a + b =~= a);
        assert(decoded_events(a) + decoded_events(b) =~= decoded_events(a));
    } else {
        lemma_decoded_events_concat(a, b.drop_last());
        assert((a + b).drop_last() =~= a + b.drop_last());
        assert((a + b).last() == b.last());
        match decoded(b.last()) {
            Some(e) => {
                assert((decoded_events(a) + decoded_events(b.drop_last())).push(e) =~= decoded_events(a)
                    + decoded_events(b.drop_last()).push(e));
            },
            None => {},
        }
    }
}

/// A line that decodes to no event (not JSON, a non-string member, no
/// `toolUseResult`, no `filePath`, or neither content nor both fragments)
/// changes nothing, wherever it stands in the log.
pub proof fn lemma_undecodable_line_skipped(a: Seq<Seq<char>>, x: Seq<char>, b: Seq<Seq<char>>)
    requires
        decoded(x) is None,
    ensures
        reconcile(decoded_events(a + seq![x] + b)) == reconcile(decoded_events(a + b)),
{
    lemma_decoded_events_concat(a + seq![x], b);
    lemma_decoded_events_concat(a, seq![x]);
    lemma_decoded_events_concat(a, b);
    reveal_with_fuel(decoded_events, 2);
    assert(seq![x].drop_last() =~= Seq::<Seq<char>>::empty());
    assert(decoded_events(a) + decoded_events(seq![x]) =~= decoded_events(a));
}

/// The chain of a sequence of edits to one path, none of which finds its
/// old fragment in an earlier edit's new text.
pub open spec fn edit_pairs(evs: Seq<Mutation>) -> Seq<(Seq<char>, Seq<char>)> {
    evs.map_values(|e: Mutation| (e->Edit_old, e->Edit_new))
}

/// Edits to a path that no write touched, whose old fragments never occur in
/// an earlier edit's new text, each start an entry of the path's chain: the
/// file is counted as the pairs of fragments, in order.
pub proof fn lemma_edits_chain(evs: Seq<Mutation>, path: Seq<char>)
    requires
        evs.len() > 0,
        forall|k: int| 0 <= k < evs.len() ==> (#[trigger] evs[k]) is Edit && evs[k].path() == path,
        forall|j: int, k: int|
            0 <= j < k < evs.len() ==> !contains(#[trigger] evs[j]->Edit_new, #[trigger] evs[k]->Edit_old),
    ensures
        reconcile(evs) == seq![FileModel { path, written: None, chain: edit_pairs(evs) }],
    decreases evs.len(),
{
    if evs.len() == 1 {
        lemma_first_event(evs[0]);
        assert(evs =~= seq![evs[0]]);
        assert(chain_edit(Seq::empty(), evs[0]->Edit_old, evs[0]->Edit_new) =~= seq![(evs[0]->Edit_old, evs[0]->Edit_new)]);
        assert(edit_pairs(evs) =~= seq![(evs[0]->Edit_old, evs[0]->Edit_new)]);
    } else {
        let prev = evs.drop_last();
        assert forall|k: int| 0 <= k < prev.len() implies (#[trigger] prev[k]) is Edit
            && prev[k].path() == path by {
            assert(prev[k] == evs[k]);
        }
        assert forall|j: int, k: int| 0 <= j < k < prev.len() implies !contains(
            #[trigger] prev[j]->Edit_new,
            #[trigger] prev[k]->Edit_old,
        ) by {
            assert(prev[j] == evs[j] && prev[k] == evs[k]);
        }
        lemma_edits_chain(prev, path);
        let l = reconcile(prev);
        let last = evs.last();
        let ch = edit_pairs(prev);
        assert(path_from(l, path, 0) == Some(0int));
        lemma_chain_from(ch, last->Edit_old, 0);
        assert forall|k: int| 0 <= k < ch.len() implies !contains(ch[k].1, last->Edit_old) by {
            assert(prev[k] == evs[k]);
            assert(!contains(evs[k]->Edit_new, evs[evs.len() - 1]->Edit_old));
        }
        assert(edit_pairs(evs) =~= ch.push((last->Edit_old, last->Edit_new)));
        assert(step(l, last) =~= seq![FileModel { path, written: None, chain: edit_pairs(evs) }]);
    }
}

/// An edit whose old fragment occurs in the written content of its file
/// replaces that occurrence there, leaves the chain and the other records
/// alone, and moves the file's net count (added minus removed) by the change
/// in its line count.
pub proof fn lemma_edit_on_written(
    l: Seq<FileModel>,
    i: int,
    old: Seq<char>,
    new: Seq<char>,
)
    requires
        paths_unique(l),
        0 <= i < l.len(),
        l[i].written is Some,
        contains(l[i].written->Some_0.1, old),
    ensures
        ({
            let o = l[i].written->Some_0.0;
            let c = l[i].written->Some_0.1;
            let c2 = replace_first(c, old, new);
            let l2 = step(l, Mutation::Edit { path: l[i].path, old, new });
            &&& l2.len() == l.len()
            &&& forall|j: int| 0 <= j < l.len() && j != i ==> l2[j] == l[j]
            &&& l2[i].path == l[i].path
            &&& l2[i].chain == l[i].chain
            &&& l2[i].written == Some((o, c2))
            &&& (diff_agrees(o, c) && diff_agrees(o, c2)) ==> (added_lines(o, c2) as int
                - removed_lines(o, c2)) - (added_lines(o, c) as int - removed_lines(o, c))
                == line_count(normalized(c2)) as int - line_count(normalized(c)) as int
            &&& (no_cr(c) && no_cr(new) && ends_line(c) && ends_line(c2)) ==> line_count(
                normalized(c2),
            ) as int - line_count(normalized(c)) as int == nl_count(new) as int - nl_count(
                old,
            ) as int
        }),
{
    let p = l[i].path;
    lemma_path_from(l, p, 0);
    let k = path_from(l, p, 0)->Some_0;
    assert(k == i);
    let o = l[i].written->Some_0.0;
    let c = l[i].written->Some_0.1;
    let c2 = replace_first(c, old, new);
    if diff_agrees(o, c) && diff_agrees(o, c2) {
        lemma_diff_counts(o, c);
        lemma_diff_counts(o, c2);
    }
    if no_cr(c) && no_cr(new) && ends_line(c) && ends_line(c2) {
        lemma_replace_split(c, old, new);
        let k = find_from(c, old, 0)->Some_0;
        let pre = c.subrange(0, k);
        let post = c.subrange(k + old.len(), c.len() as int);
        assert(no_cr(c2)) by {
            assert forall|j: int| 0 <= j < c2.len() implies c2[j] != '\r' by {
                if j < pre.len() {
                    assert(c2[j] == c[j]);
                } else if j < pre.len() + new.len() {
                    assert(c2[j] == new[j - pre.len()]);
                } else {
                    assert(c2[j] == c[j - new.len() + old.len()]);
                }
            }
        }
        assert(normalized(c) == c);
        assert(normalized(c2) == c2);
        lemma_line_count_nl(c);
        lemma_line_count_nl(c2);
        lemma_nl_concat(pre, old);
        lemma_nl_concat(pre + old, post);
        lemma_nl_concat(pre, new);
        lemma_nl_concat(pre + new, post);
    }
}

/// Once a path has written content, its original never changes again, and
/// neither does any other path's record but the one the event names.
pub proof fn lemma_original_fixed(l: Seq<FileModel>, ev: Mutation, i: int)
    requires
        paths_unique(l),
        0 <= i < l.len(),
        l[i].written is Some,
    ensures
        step(l, ev).len() >= l.len(),
        step(l, ev)[i].path == l[i].path,
        step(l, ev)[i].written is Some,
        step(l, ev)[i].written->Some_0.0 == l[i].written->Some_0.0,
        l[i].path != ev.path() ==> step(l, ev)[i] == l[i],
{
    lemma_path_from(l, ev.path(), 0);
    if l[i].path == ev.path() {
        assert(path_from(l, ev.path(), 0) == Some(i));
    }
}

/// Successive writes to one path collapse to one record: the snapshot of
/// the first write as original, the content of the last as current.
pub proof fn lemma_writes_collapse(evs: Seq<Mutation>, path: Seq<char>)
    requires
        evs.len() > 0,
        forall|k: int| 0 <= k < evs.len() ==> (#[trigger] evs[k]) is Write && evs[k].path() == path,
    ensures
        reconcile(evs) == seq![
            FileModel {
                path,
                written: Some((evs[0]->Write_original, evs.last()->Write_content)),
                chain: Seq::empty(),
            },
        ],
    decreases evs.len(),
{
    if evs.len() == 1 {
        lemma_first_event(evs[0]);
        assert(evs =~= seq![evs[0]]);
        assert(evs.last() == evs[0]);
        assert(step(Seq::<FileModel>::empty(), evs[0]) =~= seq![
            FileModel {
                path,
                written: Some((evs[0]->Write_original, evs.last()->Write_content)),
                chain: Seq::empty(),
            },
        ]);
    } else {
        let prev = evs.drop_last();
        assert forall|k: int| 0 <= k < prev.len() implies (#[trigger] prev[k]) is Write
            && prev[k].path() == path by {
            assert(prev[k] == evs[k]);
        }
        lemma_writes_collapse(prev, path);
        assert(prev[0] == evs[0]);
        let l = reconcile(prev);
        assert(path_from(l, path, 0) == Some(0int));
        assert(step(l, evs.last()) =~= seq![
            FileModel {
                path,
                written: Some((evs[0]->Write_original, evs.last()->Write_content)),
                chain: Seq::empty(),
            },
        ]);
    }
}

/// An edit to a path with no written content goes into the path's edit
/// chain (a fresh chain when the path is new), leaving the rest alone.
pub proof fn lemma_edit_without_write(l: Seq<FileModel>, path: Seq<char>, old: Seq<char>, new: Seq<char>)
    requires
        paths_unique(l),
        forall|j: int| 0 <= j < l.len() && l[j].path == path ==> l[j].written is None,
    ensures
        ({
            let l2 = step(l, Mutation::Edit { path, old, new });
            match path_from(l, path, 0) {
                Some(i) => l2 == l.update(
                    i,
                    FileModel { chain: chain_edit(l[i].chain, old, new), ..l[i] },
                ),
                None => l2 == l.push(
                    FileModel {
                        path,
                        written: None,
                        chain: seq![(old, new)],
                    },
                ),
            }
        }),
{
    lemma_path_from(l, path, 0);
    if path_from(l, path, 0) is None {
        assert(chain_edit(Seq::empty(), old, new) =~= seq![(old, new)]);
    }
}

/// A log of one edit and no write counts that edit's fragments as the
/// file's original and final text.
pub proof fn lemma_single_edit_counts(path: Seq<char>, old: Seq<char>, new: Seq<char>)
    ensures
        ({
            let l = reconcile(seq![Mutation::Edit { path, old, new }]);
            &&& l == seq![FileModel { path, written: None, chain: seq![(old, new)] }]
            &&& total_added(l, seq![true]) == added_lines(old, new)
            &&& total_removed(l, seq![true]) == removed_lines(old, new)
        }),
{
    let ev = Mutation::Edit { path, old, new };
    lemma_first_event(ev);
    assert(chain_edit(Seq::empty(), old, new) =~= seq![(old, new)]);
    let l = reconcile(seq![ev]);
    assert(l =~= seq![FileModel { path, written: None, chain: seq![(old, new)] }]);
    lemma_single_totals(l[0]);
    lemma_single_chain(old, new);
}

/// The events of a log that name `p`, in order.
pub open spec fn path_events(evs: Seq<Mutation>, p: Seq<char>) -> Seq<Mutation>
    decreases evs.len(),
{
    if evs.len() == 0 {
        Seq::empty()
    } else if evs.last().path() == p {
        path_events(evs.drop_last(), p).push(evs.last())
    } else {
        path_events(evs.drop_last(), p)
    }
}

proof fn lemma_path_events_path(evs: Seq<Mutation>, p: Seq<char>)
    ensures
        forall|k: int| 0 <= k < path_events(evs, p).len() ==> (#[trigger] path_events(evs, p)[k]).path() == p,
    decreases evs.len(),
{
    if evs.len() > 0 {
        let prev = path_events(evs.drop_last(), p);
        lemma_path_events_path(evs.drop_last(), p);
        if evs.last().path() == p {
            assert forall|k: int| 0 <= k < path_events(evs, p).len() implies (#[trigger] path_events(
                evs,
                p,
            )[k]).path() == p by {
                if k < prev.len() {
                    assert(path_events(evs, p)[k] == prev[k]);
                }
            }
        }
    }
}

/// A path's record after a whole log is the one its own events give alone:
/// other paths' events neither create nor change it.
pub proof fn lemma_record_of_path(evs: Seq<Mutation>, p: Seq<char>)
    ensures
        ({
            let r = reconcile(evs);
            let q = reconcile(path_events(evs, p));
            &&& q.len() <= 1
            &&& q.len() == 1 ==> q[0].path == p
            &&& (path_from(r, p, 0) is None <==> q.len() == 0)
            &&& path_from(r, p, 0) matches Some(i) ==> r[i] == q[0]
        }),
    decreases evs.len(),
{
    if evs.len() > 0 {
        let prev = evs.drop_last();
        let e = evs.last();
        lemma_record_of_path(prev, p);
        lemma_reconcile_unique(prev);
        lemma_reconcile_unique(evs);
        let r0 = reconcile(prev);
        let r = reconcile(evs);
        let q0 = reconcile(path_events(prev, p));
        lemma_path_from(r0, p, 0);
        lemma_path_from(r, p, 0);
        lemma_path_from(r0, e.path(), 0);
        lemma_path_from(q0, p, 0);
        if e.path() == p {
            let pe = path_events(evs, p);
            assert(pe.drop_last() == path_events(prev, p));
            let q = reconcile(pe);
            assert(q == step(q0, e));
            match path_from(r0, p, 0) {
                Some(i) => {
                    assert(path_from(q0, p, 0) == Some(0int));
                    assert(r[i] == q[0]);
                    assert(path_from(r, p, 0) == Some(i)) by {
                        if path_from(r, p, 0) is None {
                            assert(r[i].path == p);
                        }
                    }
                },
                None => {
                    assert(q0.len() == 0);
                    assert(path_from(q0, p, 0) is None);
                    assert(r[r0.len() as int] == q[0]);
                    assert(path_from(r, p, 0) == Some(r0.len() as int)) by {
                        if path_from(r, p, 0) is None {
                            assert(r[r0.len() as int].path == p);
                        } else {
                            let j = path_from(r, p, 0)->Some_0;
                            if j < r0.len() {
                                assert(r[j] == r0[j]);
                            }
                        }
                    }
                },
            }
        } else {
            assert(path_events(evs, p) == path_events(prev, p));
            match path_from(r0, p, 0) {
                Some(i) => {
                    assert(r[i] == r0[i]);
                    assert(path_from(r, p, 0) == Some(i)) by {
                        if path_from(r, p, 0) is None {
                            assert(r[i].path == p);
                        }
                    }
                },
                None => {
                    assert(path_from(r, p, 0) is None) by {
                        if path_from(r, p, 0) is Some {
                            let j = path_from(r, p, 0)->Some_0;
                            if j < r0.len() {
                                assert(r[j].path == r0[j].path);
                            }
                        }
                    }
                },
            }
        }
    }
}

/// In any log, a path whose events are all writes ends with one record: the
/// snapshot of its first write as original, the content of its last as
/// current, and no chain.
pub proof fn lemma_writes_collapse_in_log(evs: Seq<Mutation>, path: Seq<char>)
    requires
        path_events(evs, path).len() > 0,
        forall|k: int| 0 <= k < path_events(evs, path).len() ==> (#[trigger] path_events(evs, path)[k]) is Write,
    ensures
        ({
            let pe = path_events(evs, path);
            let r = reconcile(evs);
            &&& path_from(r, path, 0) is Some
            &&& r[path_from(r, path, 0)->Some_0] == FileModel {
                path,
                written: Some((pe[0]->Write_original, pe.last()->Write_content)),
                chain: Seq::empty(),
            }
        }),
{
    lemma_path_events_path(evs, path);
    lemma_writes_collapse(path_events(evs, path), path);
    lemma_record_of_path(evs, path);
}

/// In any log, a path that no write touched and whose edits never find their
/// old fragment in an earlier edit's new text ends with the edits' fragment
/// pairs, in order, as its chain.
pub proof fn lemma_edits_chain_in_log(evs: Seq<Mutation>, path: Seq<char>)
    requires
        path_events(evs, path).len() > 0,
        forall|k: int| 0 <= k < path_events(evs, path).len() ==> (#[trigger] path_events(evs, path)[k]) is Edit,
        forall|j: int, k: int|
            0 <= j < k < path_events(evs, path).len() ==> !contains(
                #[trigger] path_events(evs, path)[j]->Edit_new,
                #[trigger] path_events(evs, path)[k]->Edit_old,
            ),
    ensures
        ({
            let r = reconcile(evs);
            &&& path_from(r, path, 0) is Some
            &&& r[path_from(r, path, 0)->Some_0] == FileModel {
                path,
                written: None,
                chain: edit_pairs(path_events(evs, path)),
            }
        }),
{
    lemma_path_events_path(evs, path);
    lemma_edits_chain(path_events(evs, path), path);
    lemma_record_of_path(evs, path);
}

/// A write of new content followed by an edit whose old fragment is not in
/// that content (text another session put in the file): the edit is
/// counted on its own fragments, and the write's lines once; nothing of the
/// other session's text is counted.
pub proof fn lemma_untracked_edit_isolated(
    path: Seq<char>,
    content: Seq<char>,
    old: Seq<char>,
    new: Seq<char>,
)
    requires
        !contains(content, old),
    ensures
        ({
            let l = reconcile(
                seq![
                    Mutation::Write { path, original: Seq::empty(), content },
                    Mutation::Edit { path, old, new },
                ],
            );
            &&& l == seq![
                FileModel {
                    path,
                    written: Some((Seq::empty(), content)),
                    chain: seq![(old, new)],
                },
            ]
            &&& total_added(l, seq![true]) == added_lines(Seq::empty(), content) + added_lines(old, new)
            &&& total_removed(l, seq![true]) == removed_lines(Seq::empty(), content) + removed_lines(old, new)
            &&& file_agrees(l[0]) ==> total_added(l, seq![true]) == line_count(normalized(content))
                + added_lines(old, new) && total_removed(l, seq![true]) == removed_lines(old, new)
        }),
{
    let w = Mutation::Write { path, original: Seq::empty(), content };
    let e = Mutation::Edit { path, old, new };
    let evs = seq![w, e];
    assert(evs.drop_last() =~= seq![w]);
    lemma_first_event(w);
    let l1 = reconcile(seq![w]);
    assert(l1 =~= seq![FileModel { path, written: Some((Seq::empty(), content)), chain: Seq::empty() }]);
    assert(path_from(l1, path, 0) == Some(0int));
    assert(chain_edit(Seq::empty(), old, new) =~= seq![(old, new)]);
    let l = reconcile(evs);
    assert(l =~= seq![FileModel { path, written: Some((Seq::empty(), content)), chain: seq![(old, new)] }]);
    lemma_single_totals(l[0]);
    lemma_single_chain(old, new);
    if file_agrees(l[0]) {
        lemma_diff_counts(Seq::empty(), content);
    }
    assert(normalized(Seq::<char>::empty()) =~= Seq::<char>::empty());
}

/// A cached record of a full computation, when still valid, answers with
/// exactly the totals that computing again over the same log and files gives.
pub proof fn lemma_cache_hit_matches_recompute(
    l: Seq<FileModel>,
    present: Seq<bool>,
    byte_offset: nat,
    files_exist: Seq<bool>,
    appended: Option<Seq<char>>,
)
    requires
        cache_valid(files_exist, appended),
    ensures
        cache_answer(net_record(l, present, byte_offset), files_exist, appended) == Some(
            (total_added(l, present), total_removed(l, present)),
        ),
{
}

} // verus!
