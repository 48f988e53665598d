//! The per-file reconciliation of a log's mutation events: for each path,
//! the content before the first write and after the last change, and the
//! chain of edits that applied to no written content.
use crate::event::{decode_record, decoded, Mutation, MutationEvent};
use crate::text::{contains, replace_first, str_contains, str_replace_first};
use vstd::prelude::*;

verus! {

/// What the log says of one file.
#[derive(Clone, Debug)]
pub struct FileRecord {
    pub path: String,
    /// `(original, current)` once a write was seen: the prior snapshot of the
    /// first write, and the content after every later write or applied edit.
    pub written: Option<(String, String)>,
    /// `(chain_original, chain_current)` pairs for edits that matched no
    /// written content, in order of creation.
    pub chain: Vec<(String, String)>,
}

/// The mathematical value of a file record.
pub struct FileModel {
    pub path: Seq<char>,
    pub written: Option<(Seq<char>, Seq<char>)>,
    pub chain: Seq<(Seq<char>, Seq<char>)>,
}

pub open spec fn pair_view(p: (String, String)) -> (Seq<char>, Seq<char>) {
    (p.0@, p.1@)
}

impl View for FileRecord {
    type V = FileModel;

    open spec fn view(&self) -> FileModel {
        FileModel {
            path: self.path@,
            written: match self.written {
                Some(t) => Some(pair_view(t)),
                None => None,
            },
            chain: self.chain@.map_values(|e: (String, String)| pair_view(e)),
        }
    }
}

/// The reconciled state of a whole log: one record per path, in order of
/// first appearance.
#[derive(Clone, Debug)]
pub struct Ledger {
    pub files: Vec<FileRecord>,
}

impl View for Ledger {
    type V = Seq<FileModel>;

    open spec fn view(&self) -> Seq<FileModel> {
        self.files@.map_values(|f: FileRecord| f@)
    }
}

/// No path has two records.
pub open spec fn paths_unique(l: Seq<FileModel>) -> bool {
    forall|i: int, j: int| 0 <= i < j < l.len() ==> l[i].path != l[j].path
}

/// The first index `>= i` of a record for `p`.
pub open spec fn path_from(l: Seq<FileModel>, p: Seq<char>, i: int) -> Option<int>
    decreases l.len() + 1 - i,
{
    if i < 0 || i >= l.len() {
        None
    } else if l[i].path == p {
        Some(i)
    } else {
        path_from(l, p, i + 1)
    }
}

/// The first index `>= j` of a chain entry whose current text holds `old`.
pub open spec fn chain_from(ch: Seq<(Seq<char>, Seq<char>)>, old: Seq<char>, j: int) -> Option<
    int,
>
    decreases ch.len() + 1 - j,
{
    if j < 0 || j >= ch.len() {
        None
    } else if contains(ch[j].1, old) {
        Some(j)
    } else {
        chain_from(ch, old, j + 1)
    }
}

/// An edit routed into a chain: it extends the first entry whose current
/// text holds `old`, or starts a new entry `(old, new)`. Entries are searched
/// in order of creation and only the first occurrence in the first matching
/// entry is replaced: where a fragment occurs in several entries, or several
/// times in one, this order is the policy that settles which one changes.
pub open spec fn chain_edit(ch: Seq<(Seq<char>, Seq<char>)>, old: Seq<char>, new: Seq<char>) -> Seq<
    (Seq<char>, Seq<char>),
> {
    match chain_from(ch, old, 0) {
        Some(j) => ch.update(j, (ch[j].0, replace_first(ch[j].1, old, new))),
        None => ch.push((old, new)),
    }
}

/// A write: the first one fixes the original, every one sets the current content.
pub open spec fn apply_write(f: FileModel, original: Seq<char>, content: Seq<char>) -> FileModel {
    FileModel {
        written: Some(
            (
                match f.written {
                    Some(t) => t.0,
                    None => original,
                },
                content,
            ),
        ),
        ..f
    }
}

/// An edit: applied to the written content when that holds `old`, else
/// routed into the chain.
pub open spec fn apply_edit(f: FileModel, old: Seq<char>, new: Seq<char>) -> FileModel {
    match f.written {
        Some(t) => if contains(t.1, old) {
            FileModel { written: Some((t.0, replace_first(t.1, old, new))), ..f }
        } else {
            FileModel { chain: chain_edit(f.chain, old, new), ..f }
        },
        None => FileModel { chain: chain_edit(f.chain, old, new), ..f },
    }
}

pub open spec fn fresh(p: Seq<char>) -> FileModel {
    FileModel { path: p, written: None, chain: Seq::empty() }
}

/// The state after one more event.
pub open spec fn step(l: Seq<FileModel>, ev: Mutation) -> Seq<FileModel> {
    let found = path_from(l, ev.path(), 0);
    let f = match found {
        Some(i) => l[i],
        None => fresh(ev.path()),
    };
    let g = match ev {
        Mutation::Write { original, content, .. } => apply_write(f, original, content),
        Mutation::Edit { old, new, .. } => apply_edit(f, old, new),
    };
    match found {
        Some(i) => l.update(i, g),
        None => l.push(g),
    }
}

/// The state after a whole sequence of events, from nothing.
pub open spec fn reconcile(evs: Seq<Mutation>) -> Seq<FileModel>
    decreases evs.len(),
{
    if evs.len() == 0 {
        Seq::empty()
    } else {
        step(reconcile(evs.drop_last()), evs.last())
    }
}

pub proof fn lemma_path_from(l: Seq<FileModel>, p: Seq<char>, i: int)
    requires
        0 <= i,
    ensures
        path_from(l, p, i) matches Some(k) ==> i <= k < l.len() && l[k].path == p,
        path_from(l, p, i) is None ==> forall|j: int| i <= j < l.len() ==> l[j].path != p,
    decreases l.len() + 1 - i,
{
    if i < l.len() && l[i].path != p {
        lemma_path_from(l, p, i + 1);
    }
}

pub proof fn lemma_chain_from(ch: Seq<(Seq<char>, Seq<char>)>, old: Seq<char>, j: int)
    requires
        0 <= j,
    ensures
        chain_from(ch, old, j) matches Some(k) ==> j <= k < ch.len() && contains(ch[k].1, old),
        chain_from(ch, old, j) is None ==> forall|k: int| j <= k < ch.len() ==> !contains(ch[k].1, old),
    decreases ch.len() + 1 - j,
{
    if j < ch.len() && !contains(ch[j].1, old) {
        lemma_chain_from(ch, old, j + 1);
    }
}

/// Every step keeps one record per path.
pub proof fn lemma_step_unique(l: Seq<FileModel>, ev: Mutation)
    requires
        paths_unique(l),
    ensures
        paths_unique(step(l, ev)),
        step(l, ev).len() >= l.len(),
{
    lemma_path_from(l, ev.path(), 0);
}

pub proof fn lemma_reconcile_unique(evs: Seq<Mutation>)
    ensures
        paths_unique(reconcile(evs)),
    decreases evs.len(),
{
    if evs.len() > 0 {
        lemma_reconcile_unique(evs.drop_last());
        lemma_step_unique(reconcile(evs.drop_last()), evs.last());
    }
}

/// An edit applied to a chain.
fn chain_apply(entries: Vec<(String, String)>, old: &String, new: &String) -> (r: Vec<
    (String, String),
>)
    ensures
        r@.map_values(|e: (String, String)| pair_view(e)) == chain_edit(
            entries@.map_values(|e: (String, String)| pair_view(e)),
            old@,
            new@,
        ),
{
    let ghost ch = entries@.map_values(|e: (String, String)| pair_view(e));
    let mut chain = entries;
    let mut j: usize = 0;
    while j < chain.len()
        invariant
            0 <= j <= chain.len(),
            chain@.map_values(|e: (String, String)| pair_view(e)) == ch,
            ch == entries@.map_values(|e: (String, String)| pair_view(e)),
            chain_from(ch, old@, 0) == chain_from(ch, old@, j as int),
        decreases chain.len() - j,
    {
        assert(ch[j as int] == pair_view(chain@[j as int]));
        if str_contains(chain[j].1.as_str(), old.as_str()) {
            assert(chain_from(ch, old@, j as int) == Some(j as int));
            let (a, b) = chain.remove(j);
            let b2 = str_replace_first(b.as_str(), old.as_str(), new.as_str());
            chain.insert(j, (a, b2));
            proof {
                assert(chain@.map_values(|e: (String, String)| pair_view(e)) =~= ch.update(
                    j as int,
                    (ch[j as int].0, replace_first(ch[j as int].1, old@, new@)),
                ));
            }
            return chain;
        }
        j = j + 1;
    }
    chain.push((old.clone(), new.clone()));
    proof {
        assert(chain@.map_values(|e: (String, String)| pair_view(e)) =~= ch.push((old@, new@)));
    }
    chain
}

impl FileRecord {
    /// The record after a write of `content` over a snapshot `original`.
    pub fn with_write(self, original: &String, content: &String) -> (r: FileRecord)
        ensures
            r@ == apply_write(self@, original@, content@),
    {
        let FileRecord { path, written, chain } = self;
        let written = match written {
            Some((o, _)) => Some((o, content.clone())),
            None => Some((original.clone(), content.clone())),
        };
        FileRecord { path, written, chain }
    }

    /// The record after an edit replacing `old` by `new`.
    pub fn with_edit(self, old: &String, new: &String) -> (r: FileRecord)
        ensures
            r@ == apply_edit(self@, old@, new@),
    {
        let ghost f = self@;
        let FileRecord { path, written, chain } = self;
        match written {
            Some((o, c)) => {
                if str_contains(c.as_str(), old.as_str()) {
                    let c2 = str_replace_first(c.as_str(), old.as_str(), new.as_str());
                    FileRecord { path, written: Some((o, c2)), chain }
                } else {
                    let chain2 = chain_apply(chain, old, new);
                    FileRecord { path, written: Some((o, c)), chain: chain2 }
                }
            },
            None => {
                let chain2 = chain_apply(chain, old, new);
                FileRecord { path, written: None, chain: chain2 }
            },
        }
    }
}

impl Ledger {
    /// One record per path.
    pub open spec fn wf(&self) -> bool {
        paths_unique(self@)
    }

    /// The empty ledger.
    pub fn new() -> (r: Ledger)
        ensures
            r.wf(),
            r@ == Seq::<FileModel>::empty(),
    {
        let r = Ledger { files: Vec::new() };
        assert(r@ =~= Seq::<FileModel>::empty());
        r
    }

    /// The index of the record for `p`, if there is one.
    pub fn find_path(&self, p: &String) -> (r: Option<usize>)
        ensures
            r matches Some(i) ==> path_from(self@, p@, 0) == Some(i as int),
            r is None ==> path_from(self@, p@, 0) is None,
    {
        let mut i: usize = 0;
        while i < self.files.len()
            invariant
                0 <= i <= self.files.len(),
                path_from(self@, p@, 0) == path_from(self@, p@, i as int),
            decreases self.files.len() - i,
        {
            if self.files[i].path == *p {
                return Some(i);
            }
            i = i + 1;
        }
        None
    }

    /// Takes one event into account.
    pub fn apply(&mut self, ev: &MutationEvent)
        requires
            old(self).wf(),
        ensures
            final(self).wf(),
            final(self)@ == step(old(self)@, ev@),
    {
        let path = match ev {
            MutationEvent::Write { file_path, .. } => file_path,
            MutationEvent::Edit { file_path, .. } => file_path,
        };
        assert(path@ == ev@.path());
        let ghost l = self@;
        let found = self.find_path(path);
        proof {
            lemma_path_from(l, path@, 0);
            lemma_step_unique(l, ev@);
        }
        let rec = match found {
            Some(i) => self.files.remove(i),
            None => FileRecord { path: path.clone(), written: None, chain: Vec::new() },
        };
        proof {
            if found is None {
                assert(rec@.chain =~= Seq::<(Seq<char>, Seq<char>)>::empty());
                assert(rec@ == fresh(path@));
            }
        }
        let rec2 = match ev {
            MutationEvent::Write { original, content, .. } => rec.with_write(original, content),
            MutationEvent::Edit { old_fragment, new_fragment, .. } => rec.with_edit(
                old_fragment,
                new_fragment,
            ),
        };
        match found {
            Some(i) => {
                self.files.insert(i, rec2);
                assert(self@ =~= l.update(i as int, rec2@));
            },
            None => {
                self.files.push(rec2);
                assert(self@ =~= l.push(rec2@));
            },
        }
    }

    /// The paths of the records, in order.
    pub fn paths(&self) -> (r: Vec<String>)
        ensures
            r@.len() == self@.len(),
            forall|i: int| 0 <= i < r@.len() ==> r@[i]@ == self@[i].path,
    {
        let mut r: Vec<String> = Vec::new();
        let mut i: usize = 0;
        while i < self.files.len()
            invariant
                0 <= i <= self.files.len(),
                r@.len() == i,
                forall|k: int| 0 <= k < i ==> r@[k]@ == self@[k].path,
            decreases self.files.len() - i,
        {
            r.push(self.files[i].path.clone());
            i = i + 1;
        }
        r
    }
}

pub open spec fn events_view(evs: Seq<MutationEvent>) -> Seq<Mutation> {
    evs.map_values(|e: MutationEvent| e@)
}

/// Reconciles a sequence of events in log order.
pub fn reconcile_events(events: &Vec<MutationEvent>) -> (r: Ledger)
    ensures
        r.wf(),
        r@ == reconcile(events_view(events@)),
{
    let mut l = Ledger::new();
    let mut i: usize = 0;
    while i < events.len()
        invariant
            0 <= i <= events.len(),
            l.wf(),
            l@ == reconcile(events_view(events@.subrange(0, i as int))),
        decreases events.len() - i,
    {
        l.apply(&events[i]);
        proof {
            let s = events_view(events@.subrange(0, i as int + 1));
            assert(s.drop_last() =~= events_view(events@.subrange(0, i as int)));
            assert(s.last() == events@[i as int]@);
        }
        i = i + 1;
    }
    assert(events@.subrange(0, events@.len() as int) =~= events@);
    l
}

/// The events of a log's lines, in order: each line's decoded event, lines
/// that decode to none left out.
pub open spec fn decoded_events(lines: Seq<Seq<char>>) -> Seq<Mutation>
    decreases lines.len(),
{
    if lines.len() == 0 {
        Seq::empty()
    } else {
        match decoded(lines.last()) {
            Some(e) => decoded_events(lines.drop_last()).push(e),
            None => decoded_events(lines.drop_last()),
        }
    }
}

pub open spec fn lines_view(lines: Seq<String>) -> Seq<Seq<char>> {
    lines.map_values(|s: String| s@)
}

/// Reads the log line by line, decoding each and reconciling the events in
/// order; lines that decode to no event are skipped.
pub fn parse_transcript(lines: &Vec<String>) -> (r: Ledger)
    ensures
        r.wf(),
        r@ == reconcile(decoded_events(lines_view(lines@))),
{
    let mut l = Ledger::new();
    let mut i: usize = 0;
    while i < lines.len()
        invariant
            0 <= i <= lines.len(),
            l.wf(),
            l@ == reconcile(decoded_events(lines_view(lines@.subrange(0, i as int)))),
        decreases lines.len() - i,
    {
        let ghost prev = decoded_events(lines_view(lines@.subrange(0, i as int)));
        proof {
            let s = lines_view(lines@.subrange(0, i as int + 1));
            assert(s.drop_last() =~= lines_view(lines@.subrange(0, i as int)));
            assert(s.last() == lines@[i as int]@);
        }
        match decode_record(lines[i].as_str()) {
            Some(ev) => {
                l.apply(&ev);
                proof {
                    assert(prev.push(ev@).drop_last() =~= prev);
                }
            },
            None => {},
        }
        i = i + 1;
    }
    assert(lines@.subrange(0, lines@.len() as int) =~= lines@);
    l
}

} // verus!
