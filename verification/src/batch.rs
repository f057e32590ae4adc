//! Discovery filtering, batch partitioning, output pairing and run progress.

use vstd::prelude::*;
use crate::codec::ascii_lower;
use crate::codec::media_type_of;
use crate::json::Json;
use crate::json::jv;

verus! {

/// One discovered directory entry, as the orchestrator sees it: the file's
/// base name (its stem), its extension, and whether the file's computed
/// output path already exists on disk.
#[derive(Debug, PartialEq, Eq)]
pub struct FileEntry {
    pub base_name: String,
    pub ext: String,
    pub output_exists: bool,
}

impl FileEntry {
    /// A copy equal to this entry.
    pub fn duplicate(&self) -> (r: FileEntry)
        ensures
            r == *self,
    {
        FileEntry {
            base_name: self.base_name.clone(),
            ext: self.ext.clone(),
            output_exists: self.output_exists,
        }
    }
}

/// Whether the run keeps a discovered file: its extension is supported and,
/// under skip-existing, its output file does not already exist.
pub open spec fn keeps(e: FileEntry, skip_existing: bool) -> bool {
    media_type_of(ascii_lower(e.ext@)) is Some && (!skip_existing || !e.output_exists)
}

/// The subsequence of entries the run keeps, in order.
pub open spec fn kept(s: Seq<FileEntry>, skip_existing: bool) -> Seq<FileEntry>
    decreases s,
{
    if s.len() == 0 {
        Seq::empty()
    } else {
        let rest = kept(s.drop_last(), skip_existing);
        if keeps(s.last(), skip_existing) {
            rest.push(s.last())
        } else {
            rest
        }
    }
}

/// Applies the extension filter and the skip-existing filter to the
/// discovered entries.
pub fn select_files(candidates: Vec<FileEntry>, skip_existing: bool) -> (r: Vec<FileEntry>)
    ensures
        r@ == kept(candidates@, skip_existing),
{
    let mut r: Vec<FileEntry> = Vec::new();
    let mut i: usize = 0;
    while i < candidates.len()
        invariant
            i <= candidates.len(),
            r@ == kept(candidates@.take(i as int), skip_existing),
        decreases candidates.len() - i,
    {
        proof {
            assert(candidates@.take(i as int + 1).drop_last() =~= candidates@.take(i as int));
            assert(candidates@.take(i as int + 1).last() == candidates@[i as int]);
        }
        let e = FileEntry {
            base_name: candidates[i].base_name.clone(),
            ext: candidates[i].ext.clone(),
            output_exists: candidates[i].output_exists,
        };
        let supported = crate::codec::media_type_for(e.ext.as_str()).is_some();
        if supported && (!skip_existing || !e.output_exists) {
            proof {
                assert(e.base_name@ == candidates@[i as int].base_name@);
                assert(e == candidates@[i as int]);
            }
            r.push(e);
        }
        i = i + 1;
    }
    proof {
        assert(candidates@.take(candidates@.len() as int) =~= candidates@);
    }
    r
}

/// A pass over entries none of which is kept selects nothing.
proof fn lemma_kept_none(s: Seq<FileEntry>, skip_existing: bool)
    requires
        forall|i: int| 0 <= i < s.len() ==> !keeps(#[trigger] s[i], skip_existing),
    ensures
        kept(s, skip_existing) == Seq::<FileEntry>::empty(),
    decreases s,
{
    if s.len() > 0 {
        assert(forall|i: int| 0 <= i < s.drop_last().len() ==> #[trigger] s.drop_last()[i]
            == s[i]);
        lemma_kept_none(s.drop_last(), skip_existing);
    }
}

/// Skip-existing is idempotent: when every file kept by a first run got its
/// output written (and nothing else changed), a second discovery pass over
/// the same files keeps nothing.
pub proof fn lemma_skip_existing_idempotent(first: Seq<FileEntry>, second: Seq<FileEntry>)
    requires
        second.len() == first.len(),
        forall|i: int| 0 <= i < first.len() ==> (#[trigger] second[i]).ext@ == first[i].ext@,
        forall|i: int| 0 <= i < first.len() ==> (#[trigger] second[i]).output_exists == (
        first[i].output_exists || keeps(first[i], true)),
    ensures
        kept(second, true) == Seq::<FileEntry>::empty(),
{
    assert forall|i: int| 0 <= i < second.len() implies !keeps(#[trigger] second[i], true) by {
        assert(second[i].ext@ == first[i].ext@);
    }
    lemma_kept_none(second, true);
}

/// Partitions the ordered file list into consecutive batches of size
/// `batch_size`; every batch but the last is full, the last holds the rest,
/// and nothing is duplicated, dropped or reordered.
#[verifier::loop_isolation(false)]
pub fn make_batches(files: Vec<FileEntry>, batch_size: usize) -> (r: Vec<Vec<FileEntry>>)
    requires
        batch_size >= 1,
    ensures
        r@.len() == crate::batch_count(files@.len(), batch_size as nat),
        forall|t: int| 0 <= t < r@.len() ==> 1 <= (#[trigger] r@[t])@.len() <= batch_size,
        forall|t: int| 0 <= t < r@.len() - 1 ==> (#[trigger] r@[t])@.len() == batch_size,
        r@.map_values(|b: Vec<FileEntry>| b@).flatten() == files@,
{
    let mut r: Vec<Vec<FileEntry>> = Vec::new();
    let mut i: usize = 0;
    proof {
        assert(files@.take(0) =~= Seq::<FileEntry>::empty());
        let maps0 = r@.map_values(|b: Vec<FileEntry>| b@);
        assert(maps0 =~= Seq::<Seq<FileEntry>>::empty());
        assert(maps0.flatten_alt() =~= Seq::<FileEntry>::empty());
        assert(crate::batch_count(0, batch_size as nat) == 0) by (nonlinear_arith)
            requires
                batch_size >= 1,
        {
        }
    }
    while i < files.len()
        invariant
            i <= files.len(),
            i < files.len() ==> i == r@.len() * batch_size,
            r@.len() == crate::batch_count(i as nat, batch_size as nat),
            forall|t: int| 0 <= t < r@.len() ==> 1 <= (#[trigger] r@[t])@.len() <= batch_size,
            forall|t: int| 0 <= t < r@.len() - 1 ==> (#[trigger] r@[t])@.len() == batch_size,
            i < files.len() ==> (forall|t: int|
                0 <= t < r@.len() ==> (#[trigger] r@[t])@.len() == batch_size),
            r@.map_values(|b: Vec<FileEntry>| b@).flatten_alt() == files@.take(i as int),
        decreases files.len() - i,
    {
        let remaining = files.len() - i;
        let m = if remaining < batch_size {
            remaining
        } else {
            batch_size
        };
        let mut b: Vec<FileEntry> = Vec::new();
        let mut k: usize = 0;
        while k < m
            invariant
                k <= m,
                i + m <= files.len(),
                b@.len() == k,
                forall|t: int| 0 <= t < k ==> #[trigger] b@[t] == files@[i + t],
            decreases m - k,
        {
            b.push(files[i + k].duplicate());
            k = k + 1;
        }
        proof {
            assert(b@ =~= files@.subrange(i as int, i as int + m as int));
        }
        let ghost old_maps = r@.map_values(|x: Vec<FileEntry>| x@);
        r.push(b);
        proof {
            let maps = r@.map_values(|x: Vec<FileEntry>| x@);
            assert(maps.drop_last() =~= old_maps);
            assert(maps.last() == b@);
            assert(maps.flatten_alt() == old_maps.flatten_alt() + b@);
            assert(old_maps.flatten_alt() + b@ =~= files@.take(i as int + m as int));
            assert((i + m) as nat == i as nat + m as nat);
            let nb = batch_size as nat;
            let oldlen = old_maps.len();
            if m == batch_size {
                assert(r@.len() == crate::batch_count((i + m) as nat, nb)) by (nonlinear_arith)
                    requires
                        r@.len() == oldlen + 1,
                        i as nat == oldlen * nb,
                        m == nb,
                        nb >= 1,
                {
                }
                assert((i + m) as nat == r@.len() * nb) by (nonlinear_arith)
                    requires
                        r@.len() == oldlen + 1,
                        i as nat == oldlen * nb,
                        m == nb,
                        nb >= 1,
                {
                }
            } else {
                assert(i + m == files.len());
                assert(r@.len() == crate::batch_count((i + m) as nat, nb)) by (nonlinear_arith)
                    requires
                        r@.len() == oldlen + 1,
                        i as nat == oldlen * nb,
                        0 < m < nb,
                {
                }
            }
        }
        i = i + m;
    }
    proof {
        assert(files@.take(i as int) =~= files@);
        let maps = r@.map_values(|b: Vec<FileEntry>| b@);
        maps.lemma_flatten_and_flatten_alt_are_equivalent();
    }
    r
}

/// Pairs base names with extracted content values, position by position; the
/// shorter list bounds the pairing.
pub fn pair_outputs(names: &Vec<String>, contents: Vec<Json>) -> (r: Vec<(String, Json)>)
    ensures
        r@.len() == (if names@.len() <= contents@.len() {
            names@.len()
        } else {
            contents@.len()
        }),
        forall|k: int| 0 <= k < r@.len() ==> (#[trigger] r@[k]).0@ == names@[k]@
            && jv(r@[k].1) == jv(contents@[k]),
{
    let n = if names.len() <= contents.len() {
        names.len()
    } else {
        contents.len()
    };
    let mut r: Vec<(String, Json)> = Vec::new();
    let mut i: usize = 0;
    while i < n
        invariant
            i <= n,
            n <= names@.len(),
            n <= contents@.len(),
            r@.len() == i,
            forall|k: int| 0 <= k < i ==> (#[trigger] r@[k]).0@ == names@[k]@
                && jv(r@[k].1) == jv(contents@[k]),
        decreases n - i,
    {
        r.push((names[i].clone(), contents[i].deep_copy()));
        i = i + 1;
    }
    r
}

/// The run's progress: how many items reached a terminal outcome (success or
/// failure) out of the items discovered and kept.
pub struct RunProgress {
    completed: u64,
    total: u64,
}

impl RunProgress {
    /// How many items have reached a terminal outcome.
    pub closed spec fn completed_count(&self) -> nat {
        self.completed as nat
    }

    /// How many items the run holds in all.
    pub closed spec fn total_count(&self) -> nat {
        self.total as nat
    }

    /// The progress counter never runs past the total.
    pub closed spec fn wf(&self) -> bool {
        self.completed <= self.total
    }

    /// A fresh counter for a run of `total` items.
    pub fn new(total: u64) -> (r: RunProgress)
        ensures
            r.wf(),
            r.total_count() == total,
            r.completed_count() == 0,
    {
        RunProgress { completed: 0, total }
    }

    /// Records one terminal outcome, success or failure alike.
    pub fn advance(&mut self)
        requires
            old(self).wf(),
            old(self).completed_count() < old(self).total_count(),
        ensures
            final(self).wf(),
            final(self).completed_count() == old(self).completed_count() + 1,
            final(self).total_count() == old(self).total_count(),
    {
        self.completed = self.completed + 1;
    }

    /// How many items are done, for reporting.
    pub fn completed(&self) -> (r: u64)
        ensures
            r == self.completed_count(),
    {
        self.completed
    }

    /// Whether every item has reached a terminal outcome.
    pub fn is_done(&self) -> (r: bool)
        ensures
            r == (self.completed_count() == self.total_count()),
    {
        self.completed == self.total
    }
}

} // verus!
