//! The atomic group writer.
//!
//! A group of files must change together.  Every file's prior content is
//! cached before any write begins; writes then happen one at a time, and
//! on a failure every file already written is put back to its cached
//! content (or removed, if it did not exist).  The disk is modelled as a
//! map from path to content, and the rollback theorem states that the
//! replayed originals restore the disk exactly.

use vstd::prelude::*;

verus! {

broadcast use vstd::std_specs::vec::group_vec_axioms;

/// One planned file replacement.
pub struct FileWrite {
    pub path: String,
    pub bytes: Vec<u8>,
}

impl FileWrite {
    /// The model of this write.
    pub open spec fn v(self) -> (Seq<char>, Seq<u8>) {
        (self.path@, self.bytes@)
    }
}

/// A disk, as far as this library observes it.
pub type DiskV = Map<Seq<char>, Seq<u8>>;

/// The content of a file, `None` when the file does not exist.
pub open spec fn content_of(d: DiskV, p: Seq<char>) -> Option<Seq<u8>> {
    if d.dom().contains(p) {
        Option::Some(d[p])
    } else {
        Option::None
    }
}

/// The disk after one committed write.
pub open spec fn apply_write(d: DiskV, p: Seq<char>, bytes: Seq<u8>) -> DiskV {
    d.insert(p, bytes)
}

/// The disk after the first `k` writes of a plan.
pub open spec fn apply_writes(d: DiskV, ops: Seq<(Seq<char>, Seq<u8>)>, k: int) -> DiskV
    decreases k,
{
    if k <= 0 {
        d
    } else {
        apply_write(apply_writes(d, ops, k - 1), ops[k - 1].0, ops[k - 1].1)
    }
}

/// The disk after one restore step: the cached content is put back, or the
/// file is removed when it did not exist before.
pub open spec fn apply_restore(d: DiskV, p: Seq<char>, orig: Option<Seq<u8>>) -> DiskV {
    match orig {
        Option::Some(bytes) => d.insert(p, bytes),
        Option::None => d.remove(p),
    }
}

/// The disk after replaying a list of cached originals.
pub open spec fn apply_restores(d: DiskV, rbs: Seq<(Seq<char>, Option<Seq<u8>>)>) -> DiskV
    decreases rbs,
{
    if rbs.len() == 0 {
        d
    } else {
        apply_restores(apply_restore(d, rbs[0].0, rbs[0].1), rbs.drop_first())
    }
}

/// Pairwise-distinct paths.
pub open spec fn distinct_paths(ps: Seq<Seq<char>>) -> bool {
    forall|i: int, j: int| 0 <= i < j < ps.len() ==> ps[i] != ps[j]
}

proof fn lemma_apply_writes_content(d: DiskV, ops: Seq<(Seq<char>, Seq<u8>)>, k: int, p: Seq<char>)
    requires
        0 <= k <= ops.len(),
        forall|i: int, j: int| 0 <= i < j < ops.len() ==> ops[i].0 != ops[j].0,
    ensures
        (exists|i: int| 0 <= i < k && ops[i].0 == p) ==> content_of(apply_writes(d, ops, k), p)
            == Option::Some(ops[choose|i: int| 0 <= i < k && ops[i].0 == p].1),
        !(exists|i: int| 0 <= i < k && ops[i].0 == p) ==> content_of(apply_writes(d, ops, k), p)
            == content_of(d, p),
    decreases k,
{
    if k > 0 {
        lemma_apply_writes_content(d, ops, k - 1, p);
        if exists|i: int| 0 <= i < k && ops[i].0 == p {
            let w = choose|i: int| 0 <= i < k && ops[i].0 == p;
            if ops[k - 1].0 == p {
                assert(w == k - 1);
            } else {
                assert(w < k - 1);
                assert(exists|i: int| 0 <= i < k - 1 && ops[i].0 == p);
                let w2 = choose|i: int| 0 <= i < k - 1 && ops[i].0 == p;
                assert(w2 == w);
            }
        }
    }
}

proof fn lemma_apply_restores_content(
    d: DiskV,
    rbs: Seq<(Seq<char>, Option<Seq<u8>>)>,
    p: Seq<char>,
)
    requires
        forall|i: int, j: int| 0 <= i < j < rbs.len() ==> rbs[i].0 != rbs[j].0,
    ensures
        (exists|i: int| 0 <= i < rbs.len() && rbs[i].0 == p) ==> content_of(
            apply_restores(d, rbs),
            p,
        ) == rbs[choose|i: int| 0 <= i < rbs.len() && rbs[i].0 == p].1,
        !(exists|i: int| 0 <= i < rbs.len() && rbs[i].0 == p) ==> content_of(
            apply_restores(d, rbs),
            p,
        ) == content_of(d, p),
    decreases rbs,
{
    if rbs.len() > 0 {
        let d1 = apply_restore(d, rbs[0].0, rbs[0].1);
        let rest = rbs.drop_first();
        assert(forall|i: int, j: int| 0 <= i < j < rest.len() ==> rest[i].0 != rest[j].0);
        lemma_apply_restores_content(d1, rest, p);
        if exists|i: int| 0 <= i < rbs.len() && rbs[i].0 == p {
            let w = choose|i: int| 0 <= i < rbs.len() && rbs[i].0 == p;
            if rbs[0].0 == p {
                assert(w == 0);
                assert(forall|i: int| 0 <= i < rest.len() ==> rest[i] == rbs[i + 1]);
                assert(!(exists|i: int| 0 <= i < rest.len() && rest[i].0 == p));
                assert(content_of(d1, p) == rbs[0].1);
            } else {
                assert(rest[w - 1] == rbs[w]);
                assert(exists|i: int| 0 <= i < rest.len() && rest[i].0 == p);
                let w2 = choose|i: int| 0 <= i < rest.len() && rest[i].0 == p;
                assert(rest[w2] == rbs[w2 + 1]);
                assert(w2 == w - 1);
            }
        } else {
            assert(forall|i: int| 0 <= i < rest.len() ==> rest[i] == rbs[i + 1]);
        }
    }
}

/// The rollback theorem: if the cached originals agree with the disk, the
/// first `k` writes of a plan with pairwise-distinct paths are undone,
/// byte for byte, by replaying the first `k` originals — every file, and
/// every other path on the disk, holds exactly what it held before.
pub proof fn lemma_group_rollback(
    d: DiskV,
    ops: Seq<(Seq<char>, Seq<u8>)>,
    orig: Seq<(Seq<char>, Option<Seq<u8>>)>,
    k: int,
    p: Seq<char>,
)
    requires
        orig.len() == ops.len(),
        forall|i: int| 0 <= i < ops.len() ==> orig[i].0 == ops[i].0,
        forall|i: int, j: int| 0 <= i < j < ops.len() ==> ops[i].0 != ops[j].0,
        forall|i: int| 0 <= i < ops.len() ==> orig[i].1 == content_of(d, ops[i].0),
        0 <= k <= ops.len(),
    ensures
        content_of(apply_restores(apply_writes(d, ops, k), orig.take(k)), p) == content_of(d, p),
{
    let written = apply_writes(d, ops, k);
    let rbs = orig.take(k);
    assert(forall|i: int, j: int| 0 <= i < j < rbs.len() ==> rbs[i].0 != rbs[j].0);
    lemma_apply_writes_content(d, ops, k, p);
    lemma_apply_restores_content(written, rbs, p);
    if exists|i: int| 0 <= i < rbs.len() && rbs[i].0 == p {
        let w = choose|i: int| 0 <= i < rbs.len() && rbs[i].0 == p;
        assert(rbs[w].1 == content_of(d, p));
    } else {
        assert forall|i: int| 0 <= i < k implies ops[i].0 != p by {
            assert(rbs[i].0 == ops[i].0);
        }
    }
}


/// Model of one cached original.
pub open spec fn opt_bytes_v(o: Option<Vec<u8>>) -> Option<Seq<u8>> {
    match o {
        Option::None => Option::None,
        Option::Some(b) => Option::Some(b@),
    }
}

/// Model of a write plan.
pub open spec fn writes_v(ops: Seq<FileWrite>) -> Seq<(Seq<char>, Seq<u8>)> {
    Seq::new(ops.len(), |i: int| ops[i].v())
}

/// Model of a list of cached originals.
pub open spec fn originals_v(os: Seq<(String, Option<Vec<u8>>)>) -> Seq<
    (Seq<char>, Option<Seq<u8>>),
> {
    Seq::new(os.len(), |i: int| (os[i].0@, opt_bytes_v(os[i].1)))
}

/// A group of writes in flight: the plan, the cached originals, and how
/// many writes have been committed so far.
pub struct WriteGroup {
    pub ops: Vec<FileWrite>,
    pub originals: Vec<(String, Option<Vec<u8>>)>,
    pub committed: usize,
}

impl WriteGroup {
    /// The group's invariant: one original per write, same paths, paths
    /// pairwise distinct, and no more commits than writes.
    pub open spec fn wf(self) -> bool {
        &&& self.originals@.len() == self.ops@.len()
        &&& self.committed <= self.ops@.len()
        &&& forall|i: int|
            0 <= i < self.ops@.len() ==> originals_v(self.originals@)[i].0 == writes_v(
                self.ops@,
            )[i].0
        &&& distinct_paths(Seq::new(self.ops@.len(), |i: int| self.ops@[i].path@))
    }

    /// Starts a group: checks that the originals line up with the plan and
    /// that no path occurs twice; nothing has been committed yet.
    pub fn new(ops: Vec<FileWrite>, originals: Vec<(String, Option<Vec<u8>>)>) -> (r: Option<
        WriteGroup,
    >)
        ensures
            r is Some <==> {
                &&& originals@.len() == ops@.len()
                &&& forall|i: int| 0 <= i < ops@.len() ==> originals@[i].0@ == #[trigger] ops@[i].path@
                &&& distinct_paths(Seq::new(ops@.len(), |i: int| ops@[i].path@))
            },
            r is Some ==> {
                &&& r->0.wf()
                &&& r->0.committed == 0
                &&& r->0.ops@ == ops@
                &&& originals_v(r->0.originals@) == originals_v(originals@)
            },
    {
        let n = ops.len();
        if originals.len() != n {
            return None;
        }
        let mut i: usize = 0;
        while i < n
            invariant
                0 <= i <= n,
                n == ops@.len() == originals@.len(),
                forall|l: int| 0 <= l < i ==> originals@[l].0@ == #[trigger] ops@[l].path@,
                forall|l: int, m: int| 0 <= l < m < i ==> ops@[l].path@ != ops@[m].path@,
            decreases n - i,
        {
            if !(originals[i].0 == ops[i].path) {
                proof {
                    assert(!(forall|l: int|
                        0 <= l < ops@.len() ==> originals@[l].0@ == #[trigger] ops@[l].path@));
                }
                return None;
            }
            let mut j: usize = 0;
            while j < i
                invariant
                    0 <= j <= i < n == ops@.len(),
                    forall|l: int| 0 <= l < j ==> ops@[l].path@ != ops@[i as int].path@,
                decreases i - j,
            {
                if ops[j].path == ops[i].path {
                    proof {
                        let ps = Seq::new(ops@.len(), |l: int| ops@[l].path@);
                        assert(ps[j as int] == ps[i as int]);
                        assert(!distinct_paths(ps));
                    }
                    return None;
                }
                j = j + 1;
            }
            i = i + 1;
        }
        let g = WriteGroup { ops, originals, committed: 0 };
        Some(g)
    }

    /// The next write to perform, if any.
    pub fn next_write(&self) -> (r: Option<&FileWrite>)
        ensures
            self.committed < self.ops@.len() ==> r == Option::Some(
                &self.ops@[self.committed as int],
            ),
            self.committed >= self.ops@.len() ==> r is None,
    {
        if self.committed < self.ops.len() {
            Some(&self.ops[self.committed])
        } else {
            None
        }
    }

    /// Records that the write handed out last was committed.
    pub fn record_success(&mut self)
        ensures
            old(self).committed < old(self).ops@.len() ==> *final(self) == (WriteGroup {
                committed: (old(self).committed + 1) as usize,
                ..*old(self)
            }),
            old(self).committed >= old(self).ops@.len() ==> *final(self) == *old(self),
    {
        if self.committed < self.ops.len() {
            self.committed = self.committed + 1;
        }
    }

    /// The restores that undo every committed write, in commit order:
    /// exactly the cached originals of the files written so far.
    pub fn rollback_plan(&self) -> (r: Vec<(String, Option<Vec<u8>>)>)
        requires
            self.wf(),
        ensures
            originals_v(r@) == originals_v(self.originals@).take(self.committed as int),
    {
        let mut out: Vec<(String, Option<Vec<u8>>)> = Vec::new();
        let k = self.committed;
        let mut i: usize = 0;
        while i < k
            invariant
                0 <= i <= k <= self.originals@.len(),
                out@.len() == i,
                forall|l: int|
                    0 <= l < i ==> originals_v(out@)[l] == originals_v(self.originals@)[l],
            decreases k - i,
        {
            let path = self.originals[i].0.clone();
            let orig = match &self.originals[i].1 {
                Option::None => None,
                Option::Some(b) => Some(clone_bytes(b)),
            };
            let ghost idx = i as int;
            let ghost out0 = out@;
            out.push((path, orig));
            proof {
                assert forall|l: int| 0 <= l < idx + 1 implies originals_v(out@)[l] == originals_v(
                    self.originals@,
                )[l] by {
                    if l < idx {
                        assert(out@[l] == out0[l]);
                        assert(originals_v(out0)[l] == originals_v(self.originals@)[l]);
                    } else {
                        assert(out@[l].0@ == self.originals@[l].0@);
                        assert(opt_bytes_v(out@[l].1) == opt_bytes_v(self.originals@[l].1));
                    }
                }
            }
            i = i + 1;
        }
        proof {
            assert(originals_v(out@) =~= originals_v(self.originals@).take(self.committed as int));
        }
        out
    }
}

/// A verified copy of a byte vector.
#[verifier::loop_isolation(false)]
pub fn clone_bytes(b: &Vec<u8>) -> (r: Vec<u8>)
    ensures
        r@ == b@,
{
    let mut out: Vec<u8> = Vec::new();
    let n = b.len();
    let mut i: usize = 0;
    while i < n
        invariant
            0 <= i <= n,
            out@ == b@.take(i as int),
        decreases n - i,
    {
        out.push(b[i]);
        proof {
            assert(out@ =~= b@.take(i + 1));
        }
        i = i + 1;
    }
    proof {
        assert(b@.take(n as int) =~= b@);
    }
    out
}


/// What a delete does besides removing the document: whether the active
/// pointer must be cleared.
pub struct DeletePlan {
    /// Remove this document file, when present.
    pub remove_profile: Option<String>,
    /// Remove the pointer file: the deleted profile was the active one.
    pub clear_pointer: bool,
    /// The pointer file's path.
    pub pointer_path: String,
}

} // verus!
