//! The execution-context collaborator: guest memory, the epoll interest
//! side table, the guest's error register, and the return convention for
//! completed I/O.

use crate::err::IoError;
use crate::ident::FdId;
use vstd::pervasive::VecAdditionalExecFns;
use vstd::prelude::*;

verus! {

/// The slice of interpreter state this subsystem reads and writes: a flat
/// guest memory addressed by byte offset, the identifier-keyed epoll
/// interest table, and the last host I/O error recorded for the guest.
pub struct InterpCx {
    /// Guest memory. Addresses handed to descriptor operations index into it.
    pub mem: Vec<u8>,
    /// Identifiers of resources that some epoll registration refers to.
    pub epoll_interests: Vec<FdId>,
    /// The most recent host I/O error reported to the guest.
    pub last_error: Option<IoError>,
}

impl InterpCx {
    /// Whether some epoll registration refers to the resource with id `id`.
    pub open spec fn has_epoll_interest(&self, id: int) -> bool {
        exists|i: int| 0 <= i < self.epoll_interests@.len() && self.epoll_interests@[i]@ == id
    }

    /// Writes `count` bytes from the front of `bytes` into guest memory at
    /// `ptr`, leaving every other guest byte unchanged.
    pub fn write_bytes_ptr(&mut self, ptr: usize, bytes: &Vec<u8>, count: usize)
        requires
            count <= bytes@.len(),
            ptr + count <= old(self).mem@.len(),
        ensures
            final(self).mem@.len() == old(self).mem@.len(),
            forall|i: int| ptr <= i < ptr + count ==> final(self).mem@[i] == bytes@[i - ptr],
            forall|i: int|
                0 <= i < old(self).mem@.len() && !(ptr <= i < ptr + count) ==> final(self).mem@[i]
                    == old(self).mem@[i],
            final(self).epoll_interests == old(self).epoll_interests,
            final(self).last_error == old(self).last_error,
    {
        let mem_len = self.mem.len();
        let mut i: usize = 0;
        while i < count
            invariant
                i <= count,
                count <= bytes@.len(),
                ptr + count <= mem_len,
                mem_len == self.mem@.len(),
                self.mem@.len() == old(self).mem@.len(),
                forall|j: int| ptr <= j < ptr + i ==> self.mem@[j] == bytes@[j - ptr],
                forall|j: int|
                    0 <= j < old(self).mem@.len() && !(ptr <= j < ptr + i) ==> self.mem@[j] == old(
                        self,
                    ).mem@[j],
                self.epoll_interests == old(self).epoll_interests,
                self.last_error == old(self).last_error,
            decreases count - i,
        {
            self.mem.set(ptr + i, bytes[i]);
            i = i + 1;
        }
    }

    /// Reads `len` bytes of guest memory at `ptr`. The guest's pointer model
    /// lives outside this crate, so only raw byte content comes back, with no
    /// capability metadata attached.
    pub fn read_bytes_ptr_strip_provenance(&self, ptr: usize, len: usize) -> (r: Vec<u8>)
        requires
            ptr + len <= self.mem@.len(),
        ensures
            r@ == self.mem@.subrange(ptr as int, ptr + len),
    {
        let mem_len = self.mem.len();
        let mut r: Vec<u8> = Vec::new();
        let mut i: usize = 0;
        while i < len
            invariant
                i <= len,
                ptr + len <= mem_len,
                mem_len == self.mem@.len(),
                r@ == self.mem@.subrange(ptr as int, ptr + i),
            decreases len - i,
        {
            let b = self.mem[ptr + i];
            r.push(b);
            assert(self.mem@.subrange(ptr as int, ptr + i + 1) =~= self.mem@.subrange(
                ptr as int,
                ptr + i,
            ).push(b));
            i = i + 1;
        }
        r
    }

    /// Records a host I/O failure for the guest and stores the error return
    /// value `-1` at the result destination.
    pub fn set_last_error_and_return(&mut self, err: IoError, dest: &mut i64)
        ensures
            final(self).last_error == Some(err),
            *final(dest) == -1,
            final(self).mem == old(self).mem,
            final(self).epoll_interests == old(self).epoll_interests,
    {
        self.last_error = Some(err);
        *dest = -1;
    }

    /// Drops every epoll registration keyed by `id`. Interests in other
    /// resources survive.
    pub fn remove_epoll_interest(&mut self, id: FdId)
        ensures
            !final(self).has_epoll_interest(id@),
            forall|x: int|
                x != id@ ==> final(self).has_epoll_interest(x) == old(self).has_epoll_interest(x),
            final(self).mem == old(self).mem,
            final(self).last_error == old(self).last_error,
    {
        let ghost orig = self.epoll_interests@;
        let mut kept: Vec<FdId> = Vec::new();
        let mut i: usize = 0;
        while i < self.epoll_interests.len()
            invariant
                i <= self.epoll_interests@.len(),
                self.epoll_interests@ == orig,
                forall|k: int| 0 <= k < kept@.len() ==> #[trigger] kept@[k]@ != id@,
                forall|k: int|
                    0 <= k < kept@.len() ==> exists|j: int|
                        0 <= j < i && orig[j] == #[trigger] kept@[k],
                forall|j: int|
                    0 <= j < i && #[trigger] orig[j]@ != id@ ==> exists|k: int|
                        0 <= k < kept@.len() && kept@[k] == orig[j],
            decreases self.epoll_interests@.len() - i,
        {
            let x = self.epoll_interests[i];
            if x != id {
                let ghost prev = kept@;
                kept.push(x);
                proof {
                    assert forall|j: int| 0 <= j < i + 1 && #[trigger] orig[j]@ != id@ implies exists|
                        k: int,
                    | 0 <= k < kept@.len() && kept@[k] == orig[j] by {
                        if j == i {
                            assert(kept@[prev.len() as int] == orig[j]);
                        } else {
                            let k0 = choose|k: int| 0 <= k < prev.len() && prev[k] == orig[j];
                            assert(kept@[k0] == orig[j]);
                        }
                    }
                    assert forall|k: int| 0 <= k < kept@.len() implies exists|j: int|
                        0 <= j < i + 1 && orig[j] == #[trigger] kept@[k] by {
                        if k == prev.len() {
                            assert(orig[i as int] == kept@[k]);
                        }
                    }
                }
            }
            i = i + 1;
        }
        let ghost n = self.epoll_interests@.len() as int;
        self.epoll_interests = kept;
        proof {
            assert forall|x: int| x != id@ && old(self).has_epoll_interest(x) implies self
                .has_epoll_interest(x) by {
                let j = choose|j: int| 0 <= j < orig.len() && orig[j]@ == x;
                assert(orig[j]@ != id@);
                let k = choose|k: int| 0 <= k < kept@.len() && kept@[k] == orig[j];
                assert(self.epoll_interests@[k]@ == x);
            }
            assert forall|x: int| x != id@ && self.has_epoll_interest(x) implies old(
                self,
            ).has_epoll_interest(x) by {
                let k = choose|k: int|
                    0 <= k < self.epoll_interests@.len() && self.epoll_interests@[k]@ == x;
                let j = choose|j: int| 0 <= j < n && orig[j] == kept@[k];
                assert(orig[j]@ == x);
            }
        }
    }
}

/// The return convention for completed I/O: how a host result is translated
/// into what the guest observes.
pub trait EvalContextExt {
    /// The guest memory the context exposes.
    spec fn mem_view(&self) -> Seq<u8>;

    /// The epoll interest table the context exposes, as a set of ids.
    spec fn interest_view(&self, id: int) -> bool;

    /// The last host I/O error the context has recorded.
    spec fn last_error_view(&self) -> Option<IoError>;

    /// Completes a successful bounded read: `bytes` was the output buffer of
    /// some underlying host read that filled its first `actual_read_size`
    /// bytes. Exactly that prefix is written into guest memory at `buf`, and
    /// the actual count, never the requested length, goes to the result
    /// destination.
    fn return_read_success(
        &mut self,
        buf: usize,
        bytes: &Vec<u8>,
        actual_read_size: usize,
        dest: &mut i64,
    )
        requires
            actual_read_size <= bytes@.len(),
            buf + bytes@.len() <= old(self).mem_view().len(),
            bytes@.len() <= i64::MAX,
        ensures
            final(self).mem_view().len() == old(self).mem_view().len(),
            forall|i: int|
                buf <= i < buf + actual_read_size ==> final(self).mem_view()[i] == bytes@[i - buf],
            forall|i: int|
                0 <= i < old(self).mem_view().len() && !(buf <= i < buf + actual_read_size)
                    ==> final(self).mem_view()[i] == old(self).mem_view()[i],
            *final(dest) == actual_read_size as i64,
            forall|x: int| final(self).interest_view(x) == old(self).interest_view(x),
            final(self).last_error_view() == old(self).last_error_view(),
    ;

    /// Completes a successful write: stores the actual written count at the
    /// result destination. The actual count never exceeds what was requested,
    /// so the narrowing into the guest's result width cannot fail.
    fn return_write_success(&mut self, actual_write_size: usize, dest: &mut i64)
        requires
            actual_write_size <= i64::MAX,
        ensures
            *final(dest) == actual_write_size as i64,
            final(self).mem_view() == old(self).mem_view(),
            forall|x: int| final(self).interest_view(x) == old(self).interest_view(x),
            final(self).last_error_view() == old(self).last_error_view(),
    ;
}

impl InterpCx {
    /// Completes a successful bounded read: `bytes` was the output buffer of
    /// some underlying host read that filled its first `actual_read_size`
    /// bytes. Exactly that prefix is written into guest memory at `buf`, and
    /// the actual count, never the requested length, goes to the result
    /// destination.
    pub fn return_read_success(
        &mut self,
        buf: usize,
        bytes: &Vec<u8>,
        actual_read_size: usize,
        dest: &mut i64,
    )
        requires
            actual_read_size <= bytes@.len(),
            buf + bytes@.len() <= old(self).mem@.len(),
            bytes@.len() <= i64::MAX,
        ensures
            final(self).mem@.len() == old(self).mem@.len(),
            forall|i: int|
                buf <= i < buf + actual_read_size ==> final(self).mem@[i] == bytes@[i - buf],
            forall|i: int|
                0 <= i < old(self).mem@.len() && !(buf <= i < buf + actual_read_size)
                    ==> final(self).mem@[i] == old(self).mem@[i],
            *final(dest) == actual_read_size as i64,
            final(self).epoll_interests == old(self).epoll_interests,
            final(self).last_error == old(self).last_error,
    {
        self.write_bytes_ptr(buf, bytes, actual_read_size);
        *dest = actual_read_size as i64;
    }

    /// Completes a successful write: stores the actual written count at the
    /// result destination. The actual count never exceeds what was requested,
    /// so the narrowing into the guest's result width cannot fail.
    pub fn return_write_success(&mut self, actual_write_size: usize, dest: &mut i64)
        requires
            actual_write_size <= i64::MAX,
        ensures
            *final(dest) == actual_write_size as i64,
            final(self).mem == old(self).mem,
            final(self).epoll_interests == old(self).epoll_interests,
            final(self).last_error == old(self).last_error,
    {
        *dest = actual_write_size as i64;
    }
}

impl EvalContextExt for InterpCx {
    open spec fn mem_view(&self) -> Seq<u8> {
        self.mem@
    }

    open spec fn interest_view(&self, id: int) -> bool {
        self.has_epoll_interest(id)
    }

    open spec fn last_error_view(&self) -> Option<IoError> {
        self.last_error
    }

    fn return_read_success(
        &mut self,
        buf: usize,
        bytes: &Vec<u8>,
        actual_read_size: usize,
        dest: &mut i64,
    ) {
        InterpCx::return_read_success(self, buf, bytes, actual_read_size, dest);
    }

    fn return_write_success(&mut self, actual_write_size: usize, dest: &mut i64) {
        InterpCx::return_write_success(self, actual_write_size, dest);
    }
}

} // verus!
