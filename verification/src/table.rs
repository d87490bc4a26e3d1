//! The descriptor table: an ordered mapping from guest-visible descriptor
//! numbers to reference-counted, identity-tagged resource handles, together
//! with the "lowest free slot" allocation algorithm.
//!
//! Sharing is modelled explicitly: every resource entry carries the count of
//! strong handles held outside the table and the count of table slots that
//! refer to it. A handle is an unforgeable ticket; duplicating or releasing
//! one goes through the table, which keeps the counts and the table's
//! contents in step. The resource's close logic runs exactly once, when the
//! last strong holder disappears.

use crate::ctx::InterpCx;
use crate::err::{InterpResult, IoError};
use crate::ident::FdId;
use crate::resource::{FileDescription, NullOutput};
use vstd::pervasive::VecAdditionalExecFns;
use vstd::prelude::*;

verus! {

/// A strong, owning reference to a file description, tagged with the
/// resource's globally unique id. There is no `Clone`: duplicating a handle
/// raises the share count, so it goes through [`FdTable::clone_ref`], and a
/// handle is released through [`FdTable::drop_ref`] or
/// [`FileDescriptionExt::close_ref`].
#[derive(Debug)]
pub struct FileDescriptionRef {
    id: FdId,
    description: FileDescription,
}

/// A weak reference: the resource's identifier, looked up on demand. It
/// never extends the resource's lifetime and never takes part in the strong
/// holder count.
#[derive(Debug, Clone, Copy)]
pub struct WeakFileDescriptionRef {
    id: FdId,
}

impl FileDescriptionRef {
    /// The identifier of the referenced resource.
    pub closed spec fn id_spec(&self) -> FdId {
        self.id
    }

    /// The capability value the handle wraps.
    pub closed spec fn description_spec(&self) -> FileDescription {
        self.description
    }

    /// The globally unique id of the resource: the same for every duplicate
    /// of the handle, different for every distinct resource.
    pub fn id(&self) -> (r: FdId)
        ensures
            r == self.id_spec(),
    {
        self.id
    }

    /// Transparent access to the wrapped capability interface.
    pub fn description(&self) -> (r: &FileDescription)
        ensures
            *r == self.description_spec(),
    {
        &self.description
    }

    /// An observing reference to the same resource, free of any ownership.
    pub fn downgrade(this: &Self) -> (r: WeakFileDescriptionRef)
        ensures
            r.id_spec() == this.id_spec(),
    {
        WeakFileDescriptionRef { id: this.id }
    }
}

impl WeakFileDescriptionRef {
    /// The identifier this weak reference observes.
    pub closed spec fn id_spec(&self) -> FdId {
        self.id
    }
}

/// The bookkeeping for one resource: how many strong handles are outstanding
/// outside the table, how many table slots refer to it, whether its close
/// logic has already run, and the capability value itself.
#[derive(Debug, Clone, Copy)]
struct FdEntry {
    strong: usize,
    table_refs: usize,
    finalized: bool,
    description: FileDescription,
}

/// The file descriptor table, together with the identifier allocator and the
/// per-resource share counts.
#[derive(Debug)]
pub struct FdTable {
    /// Slots in ascending descriptor-number order.
    fds: Vec<(i32, FdId)>,
    /// Bookkeeping for every resource ever created, indexed by identifier.
    entries: Vec<FdEntry>,
    /// Unique identifier for file descriptions, used to differentiate
    /// between various file descriptions.
    next_file_description_id: FdId,
}

/// How many slots of `s` refer to the resource with identifier `id`.
pub open spec fn count_refs(s: Seq<(i32, FdId)>, id: int) -> int
    decreases s.len(),
{
    if s.len() == 0 {
        0
    } else {
        count_refs(s.drop_last(), id) + if s.last().1@ == id {
            1int
        } else {
            0int
        }
    }
}

proof fn lemma_count_refs_bounds(s: Seq<(i32, FdId)>, id: int)
    ensures
        0 <= count_refs(s, id) <= s.len(),
    decreases s.len(),
{
    if s.len() > 0 {
        lemma_count_refs_bounds(s.drop_last(), id);
    }
}

proof fn lemma_count_refs_member(s: Seq<(i32, FdId)>, i: int)
    requires
        0 <= i < s.len(),
    ensures
        count_refs(s, s[i].1@) >= 1,
    decreases s.len(),
{
    lemma_count_refs_bounds(s.drop_last(), s[i].1@);
    if i < s.len() - 1 {
        lemma_count_refs_member(s.drop_last(), i);
    }
}

proof fn lemma_count_refs_absent(s: Seq<(i32, FdId)>, id: int)
    requires
        forall|i: int| 0 <= i < s.len() ==> s[i].1@ != id,
    ensures
        count_refs(s, id) == 0,
    decreases s.len(),
{
    if s.len() > 0 {
        assert(s.last().1@ != id);
        lemma_count_refs_absent(s.drop_last(), id);
    }
}

proof fn lemma_count_refs_insert(s: Seq<(i32, FdId)>, pos: int, p: (i32, FdId), id: int)
    requires
        0 <= pos <= s.len(),
    ensures
        count_refs(s.insert(pos, p), id) == count_refs(s, id) + if p.1@ == id {
            1int
        } else {
            0int
        },
    decreases s.len(),
{
    let t = s.insert(pos, p);
    if pos == s.len() {
        assert(t.drop_last() =~= s);
        assert(t.last() == p);
    } else {
        assert(t.drop_last() =~= s.drop_last().insert(pos, p));
        assert(t.last() == s.last());
        lemma_count_refs_insert(s.drop_last(), pos, p, id);
    }
}

proof fn lemma_count_refs_remove(s: Seq<(i32, FdId)>, pos: int, id: int)
    requires
        0 <= pos < s.len(),
    ensures
        count_refs(s.remove(pos), id) == count_refs(s, id) - if s[pos].1@ == id {
            1int
        } else {
            0int
        },
    decreases s.len(),
{
    let t = s.remove(pos);
    if pos == s.len() - 1 {
        assert(t =~= s.drop_last());
    } else {
        assert(t.drop_last() =~= s.drop_last().remove(pos));
        assert(t.last() == s.last());
        lemma_count_refs_remove(s.drop_last(), pos, id);
    }
}

impl FdTable {
    /// The table's slots, in ascending descriptor-number order, each with
    /// the identifier of the resource it refers to.
    pub closed spec fn fd_seq(&self) -> Seq<(i32, FdId)> {
        self.fds@
    }

    /// The identifier the allocator will mint next.
    pub closed spec fn next_id(&self) -> int {
        self.next_file_description_id@
    }

    /// How many identifiers have been minted so far.
    pub closed spec fn num_ids(&self) -> int {
        self.entries@.len() as int
    }

    /// How many strong handles to resource `id` are outstanding outside the
    /// table.
    pub closed spec fn strong_count(&self, id: int) -> int {
        if 0 <= id < self.entries@.len() {
            self.entries@[id].strong as int
        } else {
            0
        }
    }

    /// How many table slots refer to resource `id`.
    pub closed spec fn table_ref_count(&self, id: int) -> int {
        if 0 <= id < self.entries@.len() {
            self.entries@[id].table_refs as int
        } else {
            0
        }
    }

    /// Whether the close logic of resource `id` has run.
    pub closed spec fn finalized(&self, id: int) -> bool {
        0 <= id < self.entries@.len() && self.entries@[id].finalized
    }

    /// The capability value of resource `id`.
    pub closed spec fn description_of(&self, id: int) -> FileDescription {
        self.entries@[id].description
    }

    /// Whether some strong holder — an outstanding handle or a table slot —
    /// still keeps resource `id` alive.
    pub open spec fn is_live(&self, id: int) -> bool {
        self.strong_count(id) + self.table_ref_count(id) > 0
    }

    /// What makes `(id, desc)` the content of a genuine outstanding strong
    /// handle of this table.
    pub open spec fn valid_handle(&self, id: int, desc: FileDescription) -> bool {
        &&& 0 <= id < self.num_ids()
        &&& self.strong_count(id) >= 1
        &&& desc == self.description_of(id)
    }

    /// Whether `h` is a genuine outstanding strong handle of this table.
    pub open spec fn valid_ref(&self, h: &FileDescriptionRef) -> bool {
        self.valid_handle(h.id_spec()@, h.description_spec())
    }

    /// Whether descriptor number `n` is bound in the table.
    pub open spec fn contains_fd(&self, n: i32) -> bool {
        exists|i: int| 0 <= i < self.fd_seq().len() && (#[trigger] self.fd_seq()[i]).0 == n
    }

    /// Whether descriptor number `n` is bound to resource `id`.
    pub open spec fn fd_pair(&self, n: i32, id: int) -> bool {
        exists|i: int|
            0 <= i < self.fd_seq().len() && (#[trigger] self.fd_seq()[i]).0 == n
                && self.fd_seq()[i].1@ == id
    }

    /// The slot index of descriptor number `n`, when it is bound.
    pub open spec fn fd_index(&self, n: i32) -> int {
        choose|i: int| 0 <= i < self.fd_seq().len() && (#[trigger] self.fd_seq()[i]).0 == n
    }

    /// The identifier bound to descriptor number `n`, when it is bound.
    pub open spec fn fd_id(&self, n: i32) -> int {
        self.fd_seq()[self.fd_index(n)].1@
    }

    /// The table's invariant: the identifier allocator is ahead of every
    /// minted id, slots are sorted strictly by descriptor number, every slot
    /// holds a non-negative number and a minted id, the per-resource slot
    /// counts agree with the slots, and a finalized resource has no strong
    /// holder of any kind left.
    pub open spec fn wf(&self) -> bool {
        &&& self.next_id() == self.num_ids()
        &&& forall|i: int, j: int|
            0 <= i < j < self.fd_seq().len() ==> (#[trigger] self.fd_seq()[i]).0 < (
            #[trigger] self.fd_seq()[j]).0
        &&& forall|i: int|
            0 <= i < self.fd_seq().len() ==> (#[trigger] self.fd_seq()[i]).0 >= 0 && 0
                <= self.fd_seq()[i].1@ < self.num_ids()
        &&& forall|id: int|
            0 <= id < self.num_ids() ==> #[trigger] self.table_ref_count(id) == count_refs(
                self.fd_seq(),
                id,
            )
        &&& forall|id: int|
            #[trigger] self.finalized(id) ==> self.strong_count(id) == 0 && self.table_ref_count(
                id,
            ) == 0
    }

    /// A fresh, empty table whose allocator starts at the first identifier.
    pub fn new() -> (t: FdTable)
        ensures
            t.wf(),
            t.fd_seq().len() == 0,
            t.next_id() == 0,
            t.num_ids() == 0,
    {
        FdTable { fds: Vec::new(), entries: Vec::new(), next_file_description_id: FdId(0) }
    }

    /// Wraps a resource value into a fresh strong handle, minting the next
    /// identifier. The allocator increments strictly; wraparound is a
    /// programming error, not a recoverable condition, so it is excluded by
    /// precondition.
    pub fn new_ref(&mut self, fd: FileDescription) -> (h: FileDescriptionRef)
        requires
            old(self).wf(),
            old(self).next_id() < usize::MAX,
        ensures
            final(self).wf(),
            h.id_spec()@ == old(self).next_id(),
            h.description_spec() == fd,
            final(self).valid_ref(&h),
            final(self).next_id() == old(self).next_id() + 1,
            final(self).num_ids() == old(self).num_ids() + 1,
            final(self).fd_seq() == old(self).fd_seq(),
            final(self).strong_count(h.id_spec()@) == 1,
            final(self).table_ref_count(h.id_spec()@) == 0,
            !final(self).finalized(h.id_spec()@),
            final(self).description_of(h.id_spec()@) == fd,
            counts_preserved_except(*old(self), *final(self), h.id_spec()@),
            forall|x: int|
                0 <= x < old(self).num_ids() ==> final(self).description_of(x) == old(
                    self,
                ).description_of(x),
    {
        let id = self.next_file_description_id;
        self.entries.push(
            FdEntry { strong: 1, table_refs: 0, finalized: false, description: fd },
        );
        self.next_file_description_id = FdId(id.0 + 1);
        proof {
            assert(self.fd_seq() == old(self).fd_seq());
            assert forall|x: int| 0 <= x < self.num_ids() implies #[trigger] self.table_ref_count(x)
                == count_refs(self.fd_seq(), x) by {
                if x == id@ {
                    assert(forall|i: int|
                        0 <= i < old(self).fd_seq().len() ==> (#[trigger] old(
                            self,
                        ).fd_seq()[i]).1@ < old(self).num_ids());
                    assert(forall|i: int|
                        0 <= i < self.fd_seq().len() ==> (#[trigger] self.fd_seq()[i]).1@ != x);
                    lemma_count_refs_absent(self.fd_seq(), x);
                } else {
                    assert(old(self).table_ref_count(x) == count_refs(old(self).fd_seq(), x));
                    assert(self.table_ref_count(x) == old(self).table_ref_count(x));
                }
            }
            assert forall|x: int| #[trigger] self.finalized(x) implies self.strong_count(x) == 0
                && self.table_ref_count(x) == 0 by {
                assert(x != id@);
                assert(old(self).finalized(x));
            }
        }
        FileDescriptionRef { id, description: fd }
    }
}

impl FdTable {
    /// Inserts a handle at the lowest free descriptor number that is at
    /// least `min_fd_num`. Existing numbers from `min_fd_num` on are paired,
    /// in ascending order, with the expected sequence `min_fd_num,
    /// min_fd_num + 1, ...`; the first position where the stored number
    /// differs from the expected one is a gap, and the expected number is
    /// chosen. With no gap, the chosen number is one past the greatest
    /// existing number at least `min_fd_num`, or `min_fd_num` itself when
    /// there is none. A negative minimum is the caller's input-validation
    /// duty and excluded, as is a table so full that the successor of the
    /// greatest descriptor could not exist.
    #[verifier::rlimit(30)]
    pub fn insert_with_min_num(&mut self, file_handle: FileDescriptionRef, min_fd_num: i32) -> (r:
        i32)
        requires
            old(self).wf(),
            old(self).valid_ref(&file_handle),
            min_fd_num >= 0,
            min_fd_num + old(self).fd_seq().len() < i32::MAX,
        ensures
            final(self).wf(),
            insert_post(
                *old(self),
                *final(self),
                file_handle.id_spec()@,
                min_fd_num as int,
                r,
            ),
            final(self).fd_id(r) == file_handle.id_spec()@,
    {
        let ghost pre = *old(self);
        let ghost hid = file_handle.id_spec()@;
        let n = self.fds.len();
        let mut start: usize = 0;
        while start < n && self.fds[start].0 < min_fd_num
            invariant
                start <= n,
                n == self.fds@.len(),
                forall|t: int| 0 <= t < start ==> (#[trigger] self.fds@[t]).0 < min_fd_num,
            decreases n - start,
        {
            start = start + 1;
        }
        // `start` is the first slot whose number is at least `min_fd_num`.
        let mut j: usize = start;
        while j < n && self.fds[j].0 == min_fd_num + ((j - start) as i32)
            invariant
                start <= j <= n,
                n == self.fds@.len(),
                min_fd_num >= 0,
                min_fd_num + n < i32::MAX,
                forall|t: int| 0 <= t < start ==> (#[trigger] self.fds@[t]).0 < min_fd_num,
                start < n ==> self.fds@[start as int].0 >= min_fd_num,
                forall|t: int|
                    start <= t < j ==> (#[trigger] self.fds@[t]).0 == min_fd_num + t - start,
            decreases n - j,
        {
            j = j + 1;
        }
        // Numbers `min_fd_num .. min_fd_num + (j - start)` are exactly the
        // stored numbers in slots `start .. j`; the expected counter at `j`
        // names the first free number.
        let r = min_fd_num + ((j - start) as i32);
        proof {
            assert(forall|i: int, jj: int|
                0 <= i < jj < self.fds@.len() ==> (#[trigger] self.fds@[i]).0 < (
                #[trigger] self.fds@[jj]).0);
            // the slot at j, if any, holds a number strictly beyond r
            if j < n {
                if j == start {
                    assert(self.fds@[j as int].0 > r);
                } else {
                    assert(self.fds@[j - 1].0 == r - 1);
                    assert(self.fds@[j as int].0 > self.fds@[j - 1].0);
                    assert(self.fds@[j as int].0 > r);
                }
            }
            // r itself is bound nowhere
            assert forall|t: int| 0 <= t < self.fds@.len() implies (#[trigger] self.fds@[t]).0 != r
            by {
                if t < start {
                } else if t < j {
                } else if t > j {
                    assert(self.fds@[t].0 > self.fds@[j as int].0);
                }
            }
            assert(!pre.contains_fd(r));
            // every number in [min_fd_num, r) is bound
            assert forall|k: i32| min_fd_num <= k < r implies #[trigger] pre.contains_fd(k) by {
                let t = start + (k - min_fd_num);
                assert(pre.fd_seq()[t].0 == k);
            }
        }
        // The handle's ownership moves from the outstanding count into the
        // table slot.
        let idx = file_handle.id.0;
        assert(idx < self.entries.len());
        let mut e = self.entries[idx];
        proof {
            lemma_count_refs_bounds(self.fds@, hid);
            assert(pre.table_ref_count(hid) == count_refs(pre.fd_seq(), hid));
            assert(e.table_refs == pre.table_ref_count(hid));
            assert(e.table_refs <= self.fds@.len() < i32::MAX);
        }
        e.strong = e.strong - 1;
        e.table_refs = e.table_refs + 1;
        self.entries.set(idx, e);
        let ghost mid_fds = self.fds@;
        self.fds.insert(j, (r, file_handle.id));
        proof {
            let s_new = self.fds@;
            assert(s_new == mid_fds.insert(j as int, (r, file_handle.id_spec())));
            assert(mid_fds == pre.fd_seq());
            // sortedness of the new sequence
            assert forall|a: int, b: int| 0 <= a < b < s_new.len() implies (
            #[trigger] s_new[a]).0 < (#[trigger] s_new[b]).0 by {
                if a < j && b < j {
                    assert(s_new[a] == mid_fds[a] && s_new[b] == mid_fds[b]);
                } else if a < j && b == j {
                    assert(s_new[a] == mid_fds[a] && s_new[b].0 == r);
                    if a >= start {
                        assert(mid_fds[a].0 == min_fd_num + a - start);
                    }
                } else if a < j && b > j {
                    assert(s_new[a] == mid_fds[a] && s_new[b] == mid_fds[b - 1]);
                    if b - 1 == j {
                        if a >= start {
                            assert(mid_fds[a].0 == min_fd_num + a - start);
                        }
                        assert(mid_fds[j as int].0 > r);
                    } else {
                        assert(mid_fds[j as int].0 <= mid_fds[b - 1].0 || j == b - 1);
                    }
                } else if a == j {
                    assert(s_new[a].0 == r && s_new[b] == mid_fds[b - 1]);
                    assert(b - 1 >= j);
                    if b - 1 == j {
                        assert(mid_fds[j as int].0 > r);
                    } else {
                        assert(mid_fds[j as int].0 < mid_fds[b - 1].0);
                        assert(mid_fds[j as int].0 > r);
                    }
                } else {
                    assert(s_new[a] == mid_fds[a - 1] && s_new[b] == mid_fds[b - 1]);
                }
            }
            // the slot counts still agree
            assert forall|x: int| 0 <= x < self.num_ids() implies #[trigger] self.table_ref_count(x)
                == count_refs(self.fd_seq(), x) by {
                lemma_count_refs_insert(mid_fds, j as int, (r, file_handle.id_spec()), x);
                assert(pre.table_ref_count(x) == count_refs(pre.fd_seq(), x));
            }
            // a finalized resource still has no holder of any kind
            assert forall|x: int| #[trigger] self.finalized(x) implies self.strong_count(x) == 0
                && self.table_ref_count(x) == 0 by {
                assert(pre.finalized(x) == self.finalized(x));
            }
            assert(self.wf());
            // membership: the new table binds exactly the old pairs plus (r, hid)
            assert forall|nn: i32, x: int| #[trigger] self.fd_pair(nn, x) == (pre.fd_pair(nn, x)
                || (nn == r && x == hid)) by {
                if self.fd_pair(nn, x) {
                    let t = choose|i: int|
                        0 <= i < s_new.len() && (#[trigger] s_new[i]).0 == nn && s_new[i].1@ == x;
                    if t < j {
                        assert(pre.fd_seq()[t].0 == nn && pre.fd_seq()[t].1@ == x);
                        assert(pre.fd_pair(nn, x));
                    } else if t > j {
                        assert(pre.fd_seq()[t - 1].0 == nn && pre.fd_seq()[t - 1].1@ == x);
                        assert(pre.fd_pair(nn, x));
                    }
                }
                if pre.fd_pair(nn, x) {
                    let t = choose|i: int|
                        0 <= i < pre.fd_seq().len() && (#[trigger] pre.fd_seq()[i]).0 == nn
                            && pre.fd_seq()[i].1@ == x;
                    if t < j {
                        assert(s_new[t].0 == nn && s_new[t].1@ == x);
                    } else {
                        assert(s_new[t + 1].0 == nn && s_new[t + 1].1@ == x);
                    }
                    assert(self.fd_pair(nn, x));
                }
                if nn == r && x == hid {
                    assert(s_new[j as int].0 == nn && s_new[j as int].1@ == x);
                    assert(self.fd_pair(nn, x));
                }
            }
            assert forall|nn: i32| #[trigger] self.contains_fd(nn) == (pre.contains_fd(nn) || nn
                == r) by {
                if self.contains_fd(nn) {
                    let t = choose|i: int|
                        0 <= i < s_new.len() && (#[trigger] s_new[i]).0 == nn;
                    if t < j {
                        assert(pre.fd_seq()[t].0 == nn);
                    } else if t > j {
                        assert(pre.fd_seq()[t - 1].0 == nn);
                    }
                }
                if pre.contains_fd(nn) {
                    let t = choose|i: int|
                        0 <= i < pre.fd_seq().len() && (#[trigger] pre.fd_seq()[i]).0 == nn;
                    if t < j {
                        assert(s_new[t].0 == nn);
                    } else {
                        assert(s_new[t + 1].0 == nn);
                    }
                    assert(self.contains_fd(nn));
                }
                if nn == r {
                    assert(s_new[j as int].0 == nn);
                    assert(self.contains_fd(nn));
                }
            }
            // descriptor r names exactly the inserted resource
            let i0 = self.fd_index(r);
            assert(self.contains_fd(r));
            assert(0 <= i0 < s_new.len() && s_new[i0].0 == r);
            if i0 != j {
                if i0 < j {
                    assert(s_new[i0].0 < s_new[j as int].0);
                } else {
                    assert(s_new[j as int].0 < s_new[i0].0);
                }
            }
            assert(i0 == j as int);
            assert(self.fd_id(r) == hid);
        }
        r
    }
}

/// A bound descriptor number is bound to the identifier `fd_id` names.
proof fn lemma_fd_id_pair(t: FdTable, n: i32)
    requires
        t.wf(),
        t.contains_fd(n),
    ensures
        t.fd_pair(n, t.fd_id(n)),
{
    let i0 = t.fd_index(n);
    assert(0 <= i0 < t.fd_seq().len() && t.fd_seq()[i0].0 == n && t.fd_seq()[i0].1@ == t.fd_id(n));
}

/// In a well-formed table a descriptor number is bound at most once, so a
/// binding pins down what `fd_id` names.
proof fn lemma_fd_pair_fd_id(t: FdTable, n: i32, x: int)
    requires
        t.wf(),
        t.fd_pair(n, x),
    ensures
        t.contains_fd(n),
        t.fd_id(n) == x,
{
    let w = choose|i: int|
        0 <= i < t.fd_seq().len() && (#[trigger] t.fd_seq()[i]).0 == n && t.fd_seq()[i].1@ == x;
    assert(t.fd_seq()[w].0 == n);
    assert(t.contains_fd(n));
    let i0 = t.fd_index(n);
    if i0 < w {
        assert(t.fd_seq()[i0].0 < t.fd_seq()[w].0);
    } else if w < i0 {
        assert(t.fd_seq()[w].0 < t.fd_seq()[i0].0);
    }
}

/// Two tables with the same slot sequence bind the same descriptor numbers
/// to the same identifiers: membership facts carry across operations that
/// only touch the share counts.
pub proof fn lemma_same_slots_same_bindings(a: FdTable, b: FdTable)
    requires
        a.wf(),
        a.fd_seq() == b.fd_seq(),
    ensures
        forall|n: i32| #[trigger] a.contains_fd(n) == b.contains_fd(n),
        forall|n: i32, x: int| #[trigger] a.fd_pair(n, x) == b.fd_pair(n, x),
        forall|n: i32| #[trigger] a.contains_fd(n) ==> a.fd_id(n) == b.fd_id(n),
{
    assert forall|n: i32| #[trigger] a.contains_fd(n) == b.contains_fd(n) by {
        if a.contains_fd(n) {
            let t = choose|i: int| 0 <= i < a.fd_seq().len() && (#[trigger] a.fd_seq()[i]).0 == n;
            assert(b.fd_seq()[t].0 == n);
        }
        if b.contains_fd(n) {
            let t = choose|i: int| 0 <= i < b.fd_seq().len() && (#[trigger] b.fd_seq()[i]).0 == n;
            assert(a.fd_seq()[t].0 == n);
        }
    }
    assert forall|n: i32, x: int| #[trigger] a.fd_pair(n, x) == b.fd_pair(n, x) by {
        if a.fd_pair(n, x) {
            let t = choose|i: int|
                0 <= i < a.fd_seq().len() && (#[trigger] a.fd_seq()[i]).0 == n && a.fd_seq()[i].1@
                    == x;
            assert(b.fd_seq()[t].0 == n && b.fd_seq()[t].1@ == x);
        }
        if b.fd_pair(n, x) {
            let t = choose|i: int|
                0 <= i < b.fd_seq().len() && (#[trigger] b.fd_seq()[i]).0 == n && b.fd_seq()[i].1@
                    == x;
            assert(a.fd_seq()[t].0 == n && a.fd_seq()[t].1@ == x);
        }
    }
    assert forall|n: i32| #[trigger] a.contains_fd(n) implies a.fd_id(n) == b.fd_id(n) by {
        let ia = a.fd_index(n);
        let ib = b.fd_index(n);
        assert(0 <= ia < a.fd_seq().len() && a.fd_seq()[ia].0 == n);
        assert(0 <= ib < b.fd_seq().len() && b.fd_seq()[ib].0 == n);
        if ia < ib {
            assert(a.fd_seq()[ia].0 < a.fd_seq()[ib].0);
        } else if ib < ia {
            assert(a.fd_seq()[ib].0 < a.fd_seq()[ia].0);
        }
    }
}

impl FdTable {
    /// Inserts a handle at the lowest free descriptor number:
    /// `insert_with_min_num` with minimum 0.
    pub fn insert(&mut self, fd_ref: FileDescriptionRef) -> (r: i32)
        requires
            old(self).wf(),
            old(self).valid_ref(&fd_ref),
            old(self).fd_seq().len() < i32::MAX,
        ensures
            final(self).wf(),
            insert_post(*old(self), *final(self), fd_ref.id_spec()@, 0, r),
            final(self).fd_id(r) == fd_ref.id_spec()@,
    {
        self.insert_with_min_num(fd_ref, 0)
    }

    /// Wraps a resource value into a new handle and inserts it at the
    /// lowest free descriptor number; the table ends up the sole strong
    /// holder of the fresh resource.
    pub fn insert_new(&mut self, fd: FileDescription) -> (r: i32)
        requires
            old(self).wf(),
            old(self).next_id() < usize::MAX,
            old(self).fd_seq().len() < i32::MAX,
        ensures
            final(self).wf(),
            r >= 0,
            !old(self).contains_fd(r),
            forall|k: i32| 0 <= k < r ==> #[trigger] old(self).contains_fd(k),
            forall|n: i32|
                #[trigger] final(self).contains_fd(n) == (old(self).contains_fd(n) || n == r),
            forall|n: i32, x: int|
                #[trigger] final(self).fd_pair(n, x) == (old(self).fd_pair(n, x) || (n == r && x
                    == old(self).next_id())),
            final(self).fd_seq().len() == old(self).fd_seq().len() + 1,
            final(self).next_id() == old(self).next_id() + 1,
            final(self).num_ids() == old(self).num_ids() + 1,
            final(self).fd_id(r) == old(self).next_id(),
            final(self).description_of(old(self).next_id()) == fd,
            final(self).strong_count(old(self).next_id()) == 0,
            final(self).table_ref_count(old(self).next_id()) == 1,
            !final(self).finalized(old(self).next_id()),
            counts_preserved_except(*old(self), *final(self), old(self).next_id()),
            forall|x: int|
                0 <= x < old(self).num_ids() ==> #[trigger] final(self).description_of(x) == old(
                    self,
                ).description_of(x),
    {
        let fd_ref = self.new_ref(fd);
        let ghost hid = fd_ref.id_spec()@;
        let ghost mid = *self;
        let r = self.insert(fd_ref);
        proof {
            lemma_same_slots_same_bindings(mid, *old(self));
            assert(!mid.contains_fd(r));
            assert forall|k: i32| 0 <= k < r implies #[trigger] old(self).contains_fd(k) by {
                assert(mid.contains_fd(k));
                assert(mid.contains_fd(k) == old(self).contains_fd(k));
            }
            assert forall|n: i32| #[trigger] self.contains_fd(n) == (old(self).contains_fd(n) || n
                == r) by {
                assert(self.contains_fd(n) == (mid.contains_fd(n) || n == r));
                assert(mid.contains_fd(n) == old(self).contains_fd(n));
            }
            assert forall|n: i32, x: int| #[trigger] self.fd_pair(n, x) == (old(self).fd_pair(n, x)
                || (n == r && x == old(self).next_id())) by {
                assert(self.fd_pair(n, x) == (mid.fd_pair(n, x) || (n == r && x == hid)));
                assert(mid.fd_pair(n, x) == old(self).fd_pair(n, x));
            }
            assert forall|x: int| x != hid implies #[trigger] self.strong_count(x) == old(
                self,
            ).strong_count(x) by {
                assert(self.strong_count(x) == mid.strong_count(x));
                assert(mid.strong_count(x) == old(self).strong_count(x));
            }
            assert forall|x: int| x != hid implies #[trigger] self.table_ref_count(x) == old(
                self,
            ).table_ref_count(x) by {
                assert(self.table_ref_count(x) == mid.table_ref_count(x));
                assert(mid.table_ref_count(x) == old(self).table_ref_count(x));
            }
            assert forall|x: int| x != hid implies #[trigger] self.finalized(x) == old(
                self,
            ).finalized(x) by {
                assert(self.finalized(x) == mid.finalized(x));
                assert(mid.finalized(x) == old(self).finalized(x));
            }
            assert(counts_preserved_except(*old(self), *self, old(self).next_id()));
        }
        r
    }

    /// The bootstrap table every guest process starts from: descriptor 0 is
    /// standard input, and descriptors 1 and 2 are standard output and
    /// standard error, or two independent null-sink resources when output is
    /// muted.
    pub fn init(mute_stdout_stderr: bool) -> (t: FdTable)
        ensures
            t.wf(),
            t.next_id() == 3,
            t.num_ids() == 3,
            t.fd_seq().len() == 3,
            forall|n: i32| #[trigger] t.contains_fd(n) == (n == 0 || n == 1 || n == 2),
            t.fd_id(0) == 0 && t.fd_id(1) == 1 && t.fd_id(2) == 2,
            t.description_of(0) == FileDescription::Stdin,
            mute_stdout_stderr ==> t.description_of(1) == FileDescription::Null(NullOutput)
                && t.description_of(2) == FileDescription::Null(NullOutput),
            !mute_stdout_stderr ==> t.description_of(1) == FileDescription::Stdout
                && t.description_of(2) == FileDescription::Stderr,
            forall|x: int|
                0 <= x < 3 ==> t.strong_count(x) == 0 && #[trigger] t.table_ref_count(x) == 1
                    && !t.finalized(x),
    {
        let mut fds = FdTable::new();
        let ghost s0 = fds;
        let fd0 = fds.insert_new(FileDescription::Stdin);
        proof {
            assert(!s0.contains_fd(0));
            assert(fd0 == 0);
        }
        let ghost s1 = fds;
        if mute_stdout_stderr {
            let fd1 = fds.insert_new(FileDescription::Null(NullOutput));
            proof {
                assert(s1.contains_fd(0) && !s1.contains_fd(1));
                assert(fd1 == 1);
                lemma_fd_id_pair(s1, 0);
                assert(fds.fd_pair(0, 0));
                lemma_fd_pair_fd_id(fds, 0, 0);
                assert(fds.strong_count(0) == 0 && fds.table_ref_count(0) == 1 && !fds.finalized(
                    0,
                ));
                assert(fds.strong_count(1) == 0 && fds.table_ref_count(1) == 1 && !fds.finalized(
                    1,
                ));
            }
            let ghost s2 = fds;
            let fd2 = fds.insert_new(FileDescription::Null(NullOutput));
            proof {
                assert(s2.contains_fd(0) && s2.contains_fd(1) && !s2.contains_fd(2));
                assert(fd2 == 2);
                lemma_fd_id_pair(s2, 0);
                assert(fds.fd_pair(0, 0));
                lemma_fd_pair_fd_id(fds, 0, 0);
                lemma_fd_id_pair(s2, 1);
                assert(fds.fd_pair(1, 1));
                lemma_fd_pair_fd_id(fds, 1, 1);
                assert(s2.strong_count(0) == 0 && s2.table_ref_count(0) == 1 && !s2.finalized(
                    0,
                ));
                assert(s2.strong_count(1) == 0 && s2.table_ref_count(1) == 1 && !s2.finalized(
                    1,
                ));
                assert(fds.strong_count(0) == 0 && fds.table_ref_count(0) == 1 && !fds.finalized(
                    0,
                ));
                assert(fds.strong_count(1) == 0 && fds.table_ref_count(1) == 1 && !fds.finalized(
                    1,
                ));
                assert(fds.strong_count(2) == 0 && fds.table_ref_count(2) == 1 && !fds.finalized(
                    2,
                ));
            }
        } else {
            let fd1 = fds.insert_new(FileDescription::Stdout);
            proof {
                assert(s1.contains_fd(0) && !s1.contains_fd(1));
                assert(fd1 == 1);
                lemma_fd_id_pair(s1, 0);
                assert(fds.fd_pair(0, 0));
                lemma_fd_pair_fd_id(fds, 0, 0);
                assert(fds.strong_count(0) == 0 && fds.table_ref_count(0) == 1 && !fds.finalized(
                    0,
                ));
                assert(fds.strong_count(1) == 0 && fds.table_ref_count(1) == 1 && !fds.finalized(
                    1,
                ));
            }
            let ghost s2 = fds;
            let fd2 = fds.insert_new(FileDescription::Stderr);
            proof {
                assert(s2.contains_fd(0) && s2.contains_fd(1) && !s2.contains_fd(2));
                assert(fd2 == 2);
                lemma_fd_id_pair(s2, 0);
                assert(fds.fd_pair(0, 0));
                lemma_fd_pair_fd_id(fds, 0, 0);
                lemma_fd_id_pair(s2, 1);
                assert(fds.fd_pair(1, 1));
                lemma_fd_pair_fd_id(fds, 1, 1);
                assert(s2.strong_count(0) == 0 && s2.table_ref_count(0) == 1 && !s2.finalized(
                    0,
                ));
                assert(s2.strong_count(1) == 0 && s2.table_ref_count(1) == 1 && !s2.finalized(
                    1,
                ));
                assert(fds.strong_count(0) == 0 && fds.table_ref_count(0) == 1 && !fds.finalized(
                    0,
                ));
                assert(fds.strong_count(1) == 0 && fds.table_ref_count(1) == 1 && !fds.finalized(
                    1,
                ));
                assert(fds.strong_count(2) == 0 && fds.table_ref_count(2) == 1 && !fds.finalized(
                    2,
                ));
            }
        }
        fds
    }

    /// Whether `fd_num` currently names an open resource.
    pub fn is_fd_num(&self, fd_num: i32) -> (r: bool)
        ensures
            r == self.contains_fd(fd_num),
    {
        let n = self.fds.len();
        let mut i: usize = 0;
        while i < n && self.fds[i].0 != fd_num
            invariant
                i <= n,
                n == self.fds@.len(),
                forall|t: int| 0 <= t < i ==> (#[trigger] self.fds@[t]).0 != fd_num,
            decreases n - i,
        {
            i = i + 1;
        }
        if i < n {
            assert(self.fd_seq()[i as int].0 == fd_num);
            true
        } else {
            false
        }
    }

    /// Looks a descriptor up and returns an independent strong handle to
    /// its resource, leaving the slot in place. Cloning raises the share
    /// count, so the caller owns the returned handle for the duration of
    /// its operation.
    pub fn get(&mut self, fd_num: i32) -> (r: Option<FileDescriptionRef>)
        requires
            old(self).wf(),
            old(self).contains_fd(fd_num) ==> old(self).strong_count(old(self).fd_id(fd_num))
                < usize::MAX,
        ensures
            final(self).wf(),
            r is Some <==> old(self).contains_fd(fd_num),
            !old(self).contains_fd(fd_num) ==> *final(self) == *old(self),
            r is Some ==> {
                &&& r->Some_0.id_spec()@ == old(self).fd_id(fd_num)
                &&& r->Some_0.description_spec() == old(self).description_of(
                    old(self).fd_id(fd_num),
                )
                &&& final(self).valid_ref(&r->Some_0)
                &&& final(self).strong_count(old(self).fd_id(fd_num)) == old(self).strong_count(
                    old(self).fd_id(fd_num),
                ) + 1
                &&& counts_preserved_except(*old(self), *final(self), old(self).fd_id(fd_num))
                &&& ids_preserved(*old(self), *final(self))
                &&& final(self).fd_seq() == old(self).fd_seq()
            },
    {
        let n = self.fds.len();
        let mut i: usize = 0;
        while i < n && self.fds[i].0 != fd_num
            invariant
                i <= n,
                n == self.fds@.len(),
                forall|t: int| 0 <= t < i ==> (#[trigger] self.fds@[t]).0 != fd_num,
            decreases n - i,
        {
            i = i + 1;
        }
        if i == n {
            assert(!self.contains_fd(fd_num));
            return None;
        }
        let (num, id) = self.fds[i];
        proof {
            assert(self.fd_seq()[i as int].0 == fd_num);
            assert(self.contains_fd(fd_num));
            let i0 = self.fd_index(fd_num);
            if i0 != i {
                if i0 < i {
                    assert(self.fd_seq()[i0].0 < self.fd_seq()[i as int].0);
                } else {
                    assert(self.fd_seq()[i as int].0 < self.fd_seq()[i0].0);
                }
            }
            assert(self.fd_id(fd_num) == id@);
            lemma_count_refs_member(self.fd_seq(), i as int);
        }
        let idx = id.0;
        assert(idx < self.entries.len());
        let mut e = self.entries[idx];
        e.strong = e.strong + 1;
        self.entries.set(idx, e);
        proof {
            assert(self.fd_seq() == old(self).fd_seq());
            assert forall|x: int| 0 <= x < self.num_ids() implies #[trigger] self.table_ref_count(x)
                == count_refs(self.fd_seq(), x) by {
                assert(old(self).table_ref_count(x) == count_refs(old(self).fd_seq(), x));
            }
            assert forall|x: int| #[trigger] self.finalized(x) implies self.strong_count(x) == 0
                && self.table_ref_count(x) == 0 by {
                assert(old(self).finalized(x));
                assert(x != id@);
            }
        }
        Some(FileDescriptionRef { id, description: e.description })
    }

    /// Removes the slot and hands the table's owning reference to the
    /// caller. Removal by itself never finalizes the resource: close-style
    /// finalization is the close wrapper's business, and the caller decides
    /// whether removal should also attempt it.
    pub fn remove(&mut self, fd_num: i32) -> (r: Option<FileDescriptionRef>)
        requires
            old(self).wf(),
            old(self).contains_fd(fd_num) ==> old(self).strong_count(old(self).fd_id(fd_num))
                < usize::MAX,
        ensures
            final(self).wf(),
            r is Some <==> old(self).contains_fd(fd_num),
            !old(self).contains_fd(fd_num) ==> *final(self) == *old(self),
            r is Some ==> {
                &&& r->Some_0.id_spec()@ == old(self).fd_id(fd_num)
                &&& r->Some_0.description_spec() == old(self).description_of(
                    old(self).fd_id(fd_num),
                )
                &&& final(self).valid_ref(&r->Some_0)
                &&& !final(self).contains_fd(fd_num)
                &&& forall|nn: i32, x: int|
                    #[trigger] final(self).fd_pair(nn, x) == (old(self).fd_pair(nn, x) && nn
                        != fd_num)
                &&& forall|nn: i32|
                    #[trigger] final(self).contains_fd(nn) == (old(self).contains_fd(nn) && nn
                        != fd_num)
                &&& final(self).fd_seq().len() == old(self).fd_seq().len() - 1
                &&& final(self).strong_count(old(self).fd_id(fd_num)) == old(self).strong_count(
                    old(self).fd_id(fd_num),
                ) + 1
                &&& final(self).table_ref_count(old(self).fd_id(fd_num)) == old(
                    self,
                ).table_ref_count(old(self).fd_id(fd_num)) - 1
                &&& counts_preserved_except(*old(self), *final(self), old(self).fd_id(fd_num))
                &&& ids_preserved(*old(self), *final(self))
            },
    {
        let ghost pre = *old(self);
        let n = self.fds.len();
        let mut i: usize = 0;
        while i < n && self.fds[i].0 != fd_num
            invariant
                i <= n,
                n == self.fds@.len(),
                forall|t: int| 0 <= t < i ==> (#[trigger] self.fds@[t]).0 != fd_num,
            decreases n - i,
        {
            i = i + 1;
        }
        if i == n {
            assert(!self.contains_fd(fd_num));
            return None;
        }
        let (num, id) = self.fds[i];
        proof {
            assert(self.fd_seq()[i as int].0 == fd_num);
            assert(self.contains_fd(fd_num));
            let i0 = self.fd_index(fd_num);
            if i0 != i {
                if i0 < i {
                    assert(self.fd_seq()[i0].0 < self.fd_seq()[i as int].0);
                } else {
                    assert(self.fd_seq()[i as int].0 < self.fd_seq()[i0].0);
                }
            }
            assert(self.fd_id(fd_num) == id@);
            lemma_count_refs_member(self.fd_seq(), i as int);
        }
        let idx = id.0;
        assert(idx < self.entries.len());
        let mut e = self.entries[idx];
        proof {
            assert(self.table_ref_count(id@) == count_refs(self.fd_seq(), id@));
            assert(e.table_refs == self.table_ref_count(id@));
        }
        e.strong = e.strong + 1;
        e.table_refs = e.table_refs - 1;
        self.entries.set(idx, e);
        self.fds.remove(i);
        proof {
            let s_new = self.fds@;
            assert(s_new == pre.fd_seq().remove(i as int));
            // sortedness survives removal
            assert forall|a: int, b: int| 0 <= a < b < s_new.len() implies (
            #[trigger] s_new[a]).0 < (#[trigger] s_new[b]).0 by {
                let a0 = if a < i { a } else { a + 1 };
                let b0 = if b < i { b } else { b + 1 };
                assert(s_new[a] == pre.fd_seq()[a0] && s_new[b] == pre.fd_seq()[b0]);
            }
            // the slot counts still agree
            assert forall|x: int| 0 <= x < self.num_ids() implies #[trigger] self.table_ref_count(x)
                == count_refs(self.fd_seq(), x) by {
                lemma_count_refs_remove(pre.fd_seq(), i as int, x);
                assert(pre.table_ref_count(x) == count_refs(pre.fd_seq(), x));
            }
            // a finalized resource still has no holder of any kind
            assert forall|x: int| #[trigger] self.finalized(x) implies self.strong_count(x) == 0
                && self.table_ref_count(x) == 0 by {
                assert(pre.finalized(x));
                assert(x != id@);
            }
            // membership: exactly the binding of fd_num is gone
            assert forall|nn: i32, x: int| #[trigger] self.fd_pair(nn, x) == (pre.fd_pair(nn, x)
                && nn != fd_num) by {
                if self.fd_pair(nn, x) {
                    let t = choose|k: int|
                        0 <= k < s_new.len() && (#[trigger] s_new[k]).0 == nn && s_new[k].1@ == x;
                    let t0 = if t < i { t } else { t + 1 };
                    assert(pre.fd_seq()[t0].0 == nn && pre.fd_seq()[t0].1@ == x);
                    assert(pre.fd_pair(nn, x));
                    if nn == fd_num {
                        if t0 < i {
                            assert(pre.fd_seq()[t0].0 < pre.fd_seq()[i as int].0);
                        } else {
                            assert(pre.fd_seq()[i as int].0 < pre.fd_seq()[t0].0);
                        }
                    }
                }
                if pre.fd_pair(nn, x) && nn != fd_num {
                    let t = choose|k: int|
                        0 <= k < pre.fd_seq().len() && (#[trigger] pre.fd_seq()[k]).0 == nn
                            && pre.fd_seq()[k].1@ == x;
                    assert(t != i);
                    let t1 = if t < i { t } else { t - 1 };
                    assert(s_new[t1].0 == nn && s_new[t1].1@ == x);
                    assert(self.fd_pair(nn, x));
                }
            }
            assert forall|nn: i32| #[trigger] self.contains_fd(nn) == (pre.contains_fd(nn) && nn
                != fd_num) by {
                if self.contains_fd(nn) {
                    let t = choose|k: int| 0 <= k < s_new.len() && (#[trigger] s_new[k]).0 == nn;
                    let t0 = if t < i { t } else { t + 1 };
                    assert(pre.fd_seq()[t0].0 == nn);
                    assert(pre.contains_fd(nn));
                    if nn == fd_num {
                        if t0 < i {
                            assert(pre.fd_seq()[t0].0 < pre.fd_seq()[i as int].0);
                        } else {
                            assert(pre.fd_seq()[i as int].0 < pre.fd_seq()[t0].0);
                        }
                    }
                }
                if pre.contains_fd(nn) && nn != fd_num {
                    let t = choose|k: int|
                        0 <= k < pre.fd_seq().len() && (#[trigger] pre.fd_seq()[k]).0 == nn;
                    assert(t != i);
                    let t1 = if t < i { t } else { t - 1 };
                    assert(s_new[t1].0 == nn);
                    assert(self.contains_fd(nn));
                }
            }
        }
        Some(FileDescriptionRef { id, description: e.description })
    }
}

impl FdTable {
    /// Clones a strong handle: the resource's share count rises by one and
    /// its identifier is untouched, so identity is invariant under
    /// duplication.
    pub fn clone_ref(&mut self, h: &FileDescriptionRef) -> (h2: FileDescriptionRef)
        requires
            old(self).wf(),
            old(self).valid_ref(h),
            old(self).strong_count(h.id_spec()@) < usize::MAX,
        ensures
            final(self).wf(),
            h2.id_spec() == h.id_spec(),
            h2.description_spec() == h.description_spec(),
            final(self).valid_ref(h),
            final(self).valid_ref(&h2),
            final(self).strong_count(h.id_spec()@) == old(self).strong_count(h.id_spec()@) + 1,
            counts_preserved_except(*old(self), *final(self), h.id_spec()@),
            ids_preserved(*old(self), *final(self)),
            final(self).fd_seq() == old(self).fd_seq(),
            !final(self).finalized(h.id_spec()@),
            final(self).table_ref_count(h.id_spec()@) == old(self).table_ref_count(h.id_spec()@),
    {
        let id = h.id;
        let idx = id.0;
        assert(idx < self.entries.len());
        let mut e = self.entries[idx];
        e.strong = e.strong + 1;
        self.entries.set(idx, e);
        proof {
            assert(self.fd_seq() == old(self).fd_seq());
            assert forall|x: int| 0 <= x < self.num_ids() implies #[trigger] self.table_ref_count(x)
                == count_refs(self.fd_seq(), x) by {
                assert(old(self).table_ref_count(x) == count_refs(old(self).fd_seq(), x));
            }
            assert forall|x: int| #[trigger] self.finalized(x) implies self.strong_count(x) == 0
                && self.table_ref_count(x) == 0 by {
                if x == id@ {
                    assert(!old(self).finalized(x));
                } else {
                    assert(old(self).finalized(x));
                }
            }
        }
        FileDescriptionRef { id, description: h.description }
    }

    /// Releases a strong handle without running any close logic: the share
    /// count falls by one. The resource may thereby become dead, but it is
    /// never finalized here — finalization lives in
    /// [`FileDescriptionExt::close_ref`].
    pub fn drop_ref(&mut self, h: FileDescriptionRef)
        requires
            old(self).wf(),
            old(self).valid_ref(&h),
        ensures
            final(self).wf(),
            final(self).strong_count(h.id_spec()@) == old(self).strong_count(h.id_spec()@) - 1,
            counts_preserved_except(*old(self), *final(self), h.id_spec()@),
            ids_preserved(*old(self), *final(self)),
            final(self).fd_seq() == old(self).fd_seq(),
            !final(self).finalized(h.id_spec()@),
            final(self).table_ref_count(h.id_spec()@) == old(self).table_ref_count(h.id_spec()@),
    {
        let id = h.id;
        let idx = id.0;
        assert(idx < self.entries.len());
        let mut e = self.entries[idx];
        e.strong = e.strong - 1;
        self.entries.set(idx, e);
        proof {
            assert(self.fd_seq() == old(self).fd_seq());
            assert forall|x: int| 0 <= x < self.num_ids() implies #[trigger] self.table_ref_count(x)
                == count_refs(self.fd_seq(), x) by {
                assert(old(self).table_ref_count(x) == count_refs(old(self).fd_seq(), x));
            }
            assert(!old(self).finalized(id@));
            assert forall|x: int| #[trigger] self.finalized(x) implies self.strong_count(x) == 0
                && self.table_ref_count(x) == 0 by {
                if x == id@ {
                    assert(!old(self).finalized(x));
                } else {
                    assert(old(self).finalized(x));
                }
            }
        }
    }
}

impl WeakFileDescriptionRef {
    /// Attempts to turn the observation back into ownership: while at least
    /// one strong holder — an outstanding handle or a table slot — keeps the
    /// resource alive, a fresh strong handle with the same identifier comes
    /// back and the share count rises; after the last strong holder is gone,
    /// nothing comes back, which is a normal outcome, not an error.
    pub fn upgrade(&self, table: &mut FdTable) -> (r: Option<FileDescriptionRef>)
        requires
            old(table).wf(),
            old(table).strong_count(self.id_spec()@) < usize::MAX,
        ensures
            final(table).wf(),
            r is Some <==> old(table).is_live(self.id_spec()@),
            !old(table).is_live(self.id_spec()@) ==> *final(table) == *old(table),
            r is Some ==> {
                &&& r->Some_0.id_spec() == self.id_spec()
                &&& r->Some_0.description_spec() == old(table).description_of(self.id_spec()@)
                &&& final(table).valid_ref(&r->Some_0)
                &&& final(table).strong_count(self.id_spec()@) == old(table).strong_count(
                    self.id_spec()@,
                ) + 1
                &&& counts_preserved_except(*old(table), *final(table), self.id_spec()@)
                &&& ids_preserved(*old(table), *final(table))
                &&& final(table).fd_seq() == old(table).fd_seq()
            },
    {
        let idx = self.id.0;
        if idx >= table.entries.len() {
            return None;
        }
        let mut e = table.entries[idx];
        if e.strong == 0 && e.table_refs == 0 {
            return None;
        }
        e.strong = e.strong + 1;
        table.entries.set(idx, e);
        proof {
            assert(table.fd_seq() == old(table).fd_seq());
            assert forall|x: int| 0 <= x < table.num_ids() implies #[trigger] table.table_ref_count(
                x,
            ) == count_refs(table.fd_seq(), x) by {
                assert(old(table).table_ref_count(x) == count_refs(old(table).fd_seq(), x));
            }
            assert forall|x: int| #[trigger] table.finalized(x) implies table.strong_count(x) == 0
                && table.table_ref_count(x) == 0 by {
                if x == self.id_spec()@ {
                    assert(!old(table).finalized(x));
                } else {
                    assert(old(table).finalized(x));
                }
            }
        }
        Some(FileDescriptionRef { id: self.id, description: e.description })
    }
}

/// The generic wrapper every resource kind shares around its own close:
/// consuming a strong handle finalizes the resource only when that handle
/// was the very last strong holder.
pub trait FileDescriptionExt: Sized {
    /// The identifier of the resource the handle refers to.
    spec fn ref_id(&self) -> int;

    /// The capability value the handle wraps.
    spec fn ref_description(&self) -> FileDescription;

    /// The dup-safe close contract: the handle is consumed and the share
    /// count falls by one. While any other strong holder — another handle
    /// from `dup`, or a table slot — survives, success is reported without
    /// any work, and the resource is untouched. Only when this handle was
    /// the last strong holder does finalization run, exactly once: the
    /// resource's identifier leaves the epoll interest table and the
    /// capability's own close decides the outcome.
    fn close_ref(self, table: &mut FdTable, communicate_allowed: bool, ctx: &mut InterpCx) -> (r:
        InterpResult<Result<(), IoError>>)
        requires
            old(table).wf(),
            old(table).valid_handle(self.ref_id(), self.ref_description()),
        ensures
            final(table).wf(),
            final(table).strong_count(self.ref_id()) == old(table).strong_count(self.ref_id()) - 1,
            final(table).table_ref_count(self.ref_id()) == old(table).table_ref_count(
                self.ref_id(),
            ),
            counts_preserved_except(*old(table), *final(table), self.ref_id()),
            ids_preserved(*old(table), *final(table)),
            final(table).fd_seq() == old(table).fd_seq(),
            old(table).strong_count(self.ref_id()) + old(table).table_ref_count(self.ref_id()) > 1
                ==> !final(table).finalized(self.ref_id()) && r is Ok && r->Ok_0 is Ok
                && *final(ctx) == *old(ctx),
            old(table).strong_count(self.ref_id()) + old(table).table_ref_count(self.ref_id()) == 1
                ==> final(table).finalized(self.ref_id())
                && !final(ctx).has_epoll_interest(self.ref_id())
                && (forall|x: int|
                    x != self.ref_id() ==> final(ctx).has_epoll_interest(x)
                        == old(ctx).has_epoll_interest(x))
                && final(ctx).mem == old(ctx).mem
                && final(ctx).last_error == old(ctx).last_error
                && r is Err && r->Err_0 is Unsupported,
    ;
}

impl FileDescriptionExt for FileDescriptionRef {
    open spec fn ref_id(&self) -> int {
        self.id_spec()@
    }

    open spec fn ref_description(&self) -> FileDescription {
        self.description_spec()
    }

    fn close_ref(self, table: &mut FdTable, communicate_allowed: bool, ctx: &mut InterpCx) -> (r:
        InterpResult<Result<(), IoError>>) {
        let id = self.id;
        let idx = id.0;
        assert(idx < table.entries.len());
        let mut e = table.entries[idx];
        e.strong = e.strong - 1;
        let last = e.strong == 0 && e.table_refs == 0;
        if last {
            e.finalized = true;
        }
        table.entries.set(idx, e);
        proof {
            assert(table.fd_seq() == old(table).fd_seq());
            assert forall|x: int| 0 <= x < table.num_ids() implies #[trigger] table.table_ref_count(
                x,
            ) == count_refs(table.fd_seq(), x) by {
                assert(old(table).table_ref_count(x) == count_refs(old(table).fd_seq(), x));
            }
            assert forall|x: int| #[trigger] table.finalized(x) implies table.strong_count(x) == 0
                && table.table_ref_count(x) == 0 by {
                if x == id@ {
                    assert(!old(table).finalized(x));
                } else {
                    assert(old(table).finalized(x));
                }
            }
            assert(!old(table).finalized(id@));
        }
        if last {
            // The last strong holder is gone: remove the resource from the
            // global epoll interest table, then let the capability close.
            ctx.remove_epoll_interest(id);
            let description = self.description;
            description.close(communicate_allowed, ctx)
        } else {
            // Not the last reference: closing an alias succeeds with no work.
            Ok(Ok(()))
        }
    }
}

/// No two slots of a well-formed table hold the same descriptor number:
/// whatever sequence of insertions and removals produced the table, each
/// number is bound at most once.
pub proof fn lemma_fd_nums_unique(t: FdTable, i: int, j: int)
    requires
        t.wf(),
        0 <= i < t.fd_seq().len(),
        0 <= j < t.fd_seq().len(),
        i != j,
    ensures
        t.fd_seq()[i].0 != t.fd_seq()[j].0,
{
    if i < j {
        assert(t.fd_seq()[i].0 < t.fd_seq()[j].0);
    } else {
        assert(t.fd_seq()[j].0 < t.fd_seq()[i].0);
    }
}

/// Every live handle carries an identifier below the allocator's next
/// value, so the identifier minted by the next resource creation differs
/// from the identifier of every handle already outstanding: resources
/// created one after the other never share an id, while cloning never
/// changes one.
pub proof fn lemma_minted_ids_fresh(t: FdTable, id: int, desc: FileDescription)
    requires
        t.wf(),
        t.valid_handle(id, desc),
    ensures
        id < t.next_id(),
{
}

/// Once a resource is finalized, no strong holder of it — neither an
/// outstanding handle nor a table slot — can exist, and none can come back,
/// so its close logic can never run a second time.
pub proof fn lemma_finalized_is_dead(t: FdTable, id: int, desc: FileDescription)
    requires
        t.wf(),
        t.finalized(id),
    ensures
        !t.is_live(id),
        !t.valid_handle(id, desc),
{
}

/// Everything the table records of resources other than `id` — both share
/// counts and the finalized flag — is the same in `post` as in `pre`.
pub open spec fn counts_preserved_except(pre: FdTable, post: FdTable, id: int) -> bool {
    &&& forall|x: int| x != id ==> #[trigger] post.strong_count(x) == pre.strong_count(x)
    &&& forall|x: int| x != id ==> #[trigger] post.table_ref_count(x) == pre.table_ref_count(x)
    &&& forall|x: int| x != id ==> #[trigger] post.finalized(x) == pre.finalized(x)
}

/// The identifier allocator and every recorded resource value carry over
/// from `pre` to `post`.
pub open spec fn ids_preserved(pre: FdTable, post: FdTable) -> bool {
    &&& post.next_id() == pre.next_id()
    &&& post.num_ids() == pre.num_ids()
    &&& forall|x: int|
        0 <= x < pre.num_ids() ==> #[trigger] post.description_of(x) == pre.description_of(x)
}

/// What a successful insertion with minimum `min` leaves behind: `r` is the
/// smallest descriptor number at least `min` that was free, the one slot
/// `r -> hid` has appeared and every other binding is untouched, and the
/// inserted handle's ownership has moved from the outstanding strong count
/// into the table's slot count.
pub open spec fn insert_post(pre: FdTable, post: FdTable, hid: int, min: int, r: i32) -> bool {
    &&& r >= min
    &&& !pre.contains_fd(r)
    &&& forall|k: i32| min <= k < r ==> #[trigger] pre.contains_fd(k)
    &&& forall|n: i32, x: int|
        #[trigger] post.fd_pair(n, x) == (pre.fd_pair(n, x) || (n == r && x == hid))
    &&& forall|n: i32| #[trigger] post.contains_fd(n) == (pre.contains_fd(n) || n == r)
    &&& post.fd_seq().len() == pre.fd_seq().len() + 1
    &&& post.strong_count(hid) == pre.strong_count(hid) - 1
    &&& post.table_ref_count(hid) == pre.table_ref_count(hid) + 1
    &&& !post.finalized(hid)
    &&& counts_preserved_except(pre, post, hid)
    &&& ids_preserved(pre, post)
}

} // verus!
