//! The concrete backing resources and their capability interface.
//!
//! The capability contract is a closed set of resource variants behind one
//! interface: every operation either does its work or reports an unsupported
//! condition, as real descriptors do for capabilities they lack.

use crate::ctx::{EvalContextExt, InterpCx};
use crate::err::{InterpError, InterpResult, IoError};
use std::io::IsTerminal;
use std::io::Read;
use std::io::Write;
use vstd::prelude::*;

verus! {

/// Like /dev/null: a pure sink that reports every write as fully done
/// without producing observable output.
#[derive(Debug, Clone, Copy, PartialEq, Eq, Structural)]
pub struct NullOutput;

/// An open file description: the closed set of backing resources this
/// subsystem manages itself. Regular files, sockets and pipes belong to a
/// different module and reach this table only as already-built handles.
#[derive(Debug, Clone, Copy, PartialEq, Eq, Structural)]
pub enum FileDescription {
    /// The host's standard input stream.
    Stdin,
    /// The host's standard output stream.
    Stdout,
    /// The host's standard error stream.
    Stderr,
    /// A muted output stream.
    Null(NullOutput),
}

/// A seek target: relative to the beginning, the end, or the current
/// position of the stream.
#[derive(Debug, Clone, Copy, PartialEq, Eq, Structural)]
pub enum SeekFrom {
    /// An absolute offset from the start.
    Start(u64),
    /// An offset relative to the end.
    End(i64),
    /// An offset relative to the current position.
    Current(i64),
}

/// Relies on `std::io::Stdin`'s `Read::read`, reached through
/// `std::io::stdin`: a successful read returns a count that never exceeds the
/// buffer's length, and the buffer keeps its length. A host failure comes
/// back as the OS error code, taken from `std::io::Error::raw_os_error`.
#[verifier::external_body]
fn host_stdin_read(buf: &mut Vec<u8>) -> (r: Result<usize, Option<i32>>)
    ensures
        final(buf)@.len() == old(buf)@.len(),
        r is Ok ==> r->Ok_0 <= final(buf)@.len(),
{
    match std::io::stdin().read(buf.as_mut_slice()) {
        Ok(n) => Ok(n),
        Err(e) => Err(e.raw_os_error()),
    }
}

/// Relies on `std::io::Stdout`'s `Write::write`, reached through
/// `std::io::stdout`: a successful write returns a count that never exceeds
/// the length of what was offered. A host failure comes back as the OS error
/// code, taken from `std::io::Error::raw_os_error`.
#[verifier::external_body]
fn host_stdout_write(bytes: &Vec<u8>) -> (r: Result<usize, Option<i32>>)
    ensures
        r is Ok ==> r->Ok_0 <= bytes@.len(),
{
    match std::io::stdout().write(bytes.as_slice()) {
        Ok(n) => Ok(n),
        Err(e) => Err(e.raw_os_error()),
    }
}

/// Relies on `std::io::Stderr`'s `Write::write`, reached through
/// `std::io::stderr`: a successful write returns a count that never exceeds
/// the length of what was offered. A host failure comes back as the OS error
/// code, taken from `std::io::Error::raw_os_error`.
#[verifier::external_body]
fn host_stderr_write(bytes: &Vec<u8>) -> (r: Result<usize, Option<i32>>)
    ensures
        r is Ok ==> r->Ok_0 <= bytes@.len(),
{
    match std::io::stderr().write(bytes.as_slice()) {
        Ok(n) => Ok(n),
        Err(e) => Err(e.raw_os_error()),
    }
}

/// Relies on `std::io::Stdout`'s `Write::flush`, reached through
/// `std::io::stdout`. Whether the host accepted the flush is reported back;
/// nothing is promised of the outcome.
#[verifier::external_body]
fn host_stdout_flush() -> (r: Result<(), Option<i32>>)
{
    match std::io::stdout().flush() {
        Ok(u) => Ok(u),
        Err(e) => Err(e.raw_os_error()),
    }
}

/// Relies on `IsTerminal::is_terminal` for `std::io::Stdin`, reached through
/// `std::io::stdin`. The answer depends on the host environment, so nothing
/// is promised of it.
#[verifier::external_body]
fn host_stdin_is_terminal() -> (r: bool) {
    std::io::stdin().is_terminal()
}

/// Relies on `IsTerminal::is_terminal` for `std::io::Stdout`, reached
/// through `std::io::stdout`. The answer depends on the host environment, so
/// nothing is promised of it.
#[verifier::external_body]
fn host_stdout_is_terminal() -> (r: bool) {
    std::io::stdout().is_terminal()
}

/// Relies on `IsTerminal::is_terminal` for `std::io::Stderr`, reached
/// through `std::io::stderr`. The answer depends on the host environment, so
/// nothing is promised of it.
#[verifier::external_body]
fn host_stderr_is_terminal() -> (r: bool) {
    std::io::stderr().is_terminal()
}

/// A zero-filled host buffer of the requested length.
fn zeroed_buffer(len: usize) -> (r: Vec<u8>)
    ensures
        r@.len() == len,
        forall|i: int| 0 <= i < len ==> r@[i] == 0u8,
{
    let mut r: Vec<u8> = Vec::new();
    let mut i: usize = 0;
    while i < len
        invariant
            i <= len,
            r@.len() == i,
            forall|j: int| 0 <= j < i ==> r@[j] == 0u8,
        decreases len - i,
    {
        r.push(0u8);
        i = i + 1;
    }
    r
}

impl FileDescription {
    /// Human-readable kind of the resource, used in diagnostics.
    pub fn name(&self) -> (r: &'static str)
        ensures
            self is Stdin ==> r@ == "stdin"@,
            self is Stdout ==> r@ == "stdout"@,
            self is Stderr ==> r@ == "stderr"@,
            self is Null ==> r@ == "stderr and stdout"@,
    {
        match self {
            FileDescription::Stdin => "stdin",
            FileDescription::Stdout => "stdout",
            FileDescription::Stderr => "stderr",
            FileDescription::Null(_) => "stderr and stdout",
        }
    }

    /// Reads up to `len` bytes from the resource into guest memory at `ptr`
    /// and reports completion with the count of bytes actually read, or with
    /// the host's I/O error. Exactly the actually-read prefix is written:
    /// guest memory past it stays as it was, even though a larger buffer was
    /// requested. Only standard input can read, and isolation refuses even
    /// that, before touching any host state, so that emulated execution
    /// stays deterministic.
    pub fn read(&self, communicate_allowed: bool, ptr: usize, len: usize, ctx: &mut InterpCx) -> (r:
        InterpResult<Result<u64, IoError>>)
        requires
            ptr + len <= old(ctx).mem@.len(),
        ensures
            final(ctx).mem@.len() == old(ctx).mem@.len(),
            final(ctx).epoll_interests == old(ctx).epoll_interests,
            final(ctx).last_error == old(ctx).last_error,
            !(self is Stdin) ==> r is Err && r->Err_0 is Unsupported && final(ctx).mem@ == old(ctx).mem@,
            self is Stdin && !communicate_allowed ==> r is Err && r->Err_0 is Isolation && final(ctx).mem@ == old(ctx).mem@,
            self is Stdin && communicate_allowed ==> r is Ok && match r->Ok_0 {
                Ok(k) => k <= len && forall|i: int|
                    0 <= i < old(ctx).mem@.len() && !(ptr <= i < ptr + k) ==> final(ctx).mem@[i]
                        == old(ctx).mem@[i],
                Err(_) => final(ctx).mem@ == old(ctx).mem@,
            },
    {
        match self {
            FileDescription::Stdin => {
                if !communicate_allowed {
                    // Isolation must stay deterministic, so every read is
                    // refused, even one from standard input.
                    return Err(InterpError::Isolation { operation: "read", name: "stdin" });
                }
                let mut bytes = zeroed_buffer(len);
                match host_stdin_read(&mut bytes) {
                    Ok(actual_read_size) => {
                        // Only the bytes the host actually produced reach the
                        // guest; the rest of the requested window is untouched.
                        ctx.write_bytes_ptr(ptr, &bytes, actual_read_size);
                        Ok(Ok(actual_read_size as u64))
                    },
                    Err(code) => Ok(Err(IoError { raw_os_error: code })),
                }
            },
            _ => Err(InterpError::Unsupported { operation: "read", name: self.name() }),
        }
    }

    /// Writes `len` bytes of guest memory at `ptr` to the resource and
    /// stores the guest-visible result at `dest`: the count of bytes the
    /// host accepted, or `-1` with the error recorded. Writing is allowed
    /// even under isolation, since emitting output is considered safe; the
    /// null sink reports the full length as written without any output, and
    /// standard input cannot write.
    pub fn write(
        &self,
        _communicate_allowed: bool,
        ptr: usize,
        len: usize,
        dest: &mut i64,
        ctx: &mut InterpCx,
    ) -> (r: InterpResult<()>)
        requires
            ptr + len <= old(ctx).mem@.len(),
            len <= i64::MAX,
        ensures
            final(ctx).mem@ == old(ctx).mem@,
            forall|x: int|
                final(ctx).has_epoll_interest(x) == old(ctx).has_epoll_interest(x),
            self is Stdin ==> r is Err && r->Err_0 is Unsupported && *final(dest) == *old(dest)
                && final(ctx).last_error == old(ctx).last_error,
            self is Null ==> r is Ok && *final(dest) == len as i64 && final(ctx).last_error == old(ctx).last_error,
            self is Stdout || self is Stderr ==> r is Ok && ((0 <= *final(dest) <= len && final(ctx).last_error == old(ctx).last_error) || (*final(dest) == -1 && final(ctx).last_error is Some)),
    {
        match self {
            FileDescription::Stdout => {
                let bytes = ctx.read_bytes_ptr_strip_provenance(ptr, len);
                // Writing to standard output is allowed even with isolation enabled.
                let result = host_stdout_write(&bytes);
                // Standard output is buffered on the host: flush, so that the
                // guest's write corresponds to one the host has taken, with no
                // extra buffering in between.
                let _flushed = host_stdout_flush();
                match result {
                    Ok(write_size) => {
                        ctx.return_write_success(write_size, dest);
                        Ok(())
                    },
                    Err(code) => {
                        ctx.set_last_error_and_return(IoError { raw_os_error: code }, dest);
                        Ok(())
                    },
                }
            },
            FileDescription::Stderr => {
                let bytes = ctx.read_bytes_ptr_strip_provenance(ptr, len);
                // Writing to standard error is allowed even with isolation
                // enabled. No flush: the host stream is unbuffered.
                let result = host_stderr_write(&bytes);
                match result {
                    Ok(write_size) => {
                        ctx.return_write_success(write_size, dest);
                        Ok(())
                    },
                    Err(code) => {
                        ctx.set_last_error_and_return(IoError { raw_os_error: code }, dest);
                        Ok(())
                    },
                }
            },
            FileDescription::Null(_) => {
                // Nothing is written, but the guest is told everything was.
                ctx.return_write_success(len, dest);
                Ok(())
            },
            FileDescription::Stdin => Err(
                InterpError::Unsupported { operation: "write", name: "stdin" },
            ),
        }
    }

    /// Seeks to `offset` and reports the new absolute position. None of the
    /// standard streams supports seeking.
    pub fn seek(&self, _communicate_allowed: bool, _offset: SeekFrom) -> (r: InterpResult<
        Result<u64, IoError>,
    >)
        ensures
            r is Err && r->Err_0 is Unsupported,
    {
        Err(InterpError::Unsupported { operation: "seek", name: self.name() })
    }

    /// Closes the resource by value; meaningful only once no other strong
    /// holder exists. None of the standard streams implements closing, so
    /// the operation is reported unsupported and the context is untouched.
    pub fn close(self, _communicate_allowed: bool, ctx: &mut InterpCx) -> (r: InterpResult<
        Result<(), IoError>,
    >)
        ensures
            r is Err && r->Err_0 is Unsupported,
            *final(ctx) == *old(ctx),
    {
        Err(InterpError::Unsupported { operation: "close", name: self.name() })
    }

    /// Whether the resource is an interactive terminal: true only when host
    /// communication is allowed and the backing host stream reports one. The
    /// null sink never is.
    pub fn is_tty(&self, communicate_allowed: bool) -> (r: bool)
        ensures
            !communicate_allowed ==> !r,
            self is Null ==> !r,
    {
        match self {
            FileDescription::Stdin => communicate_allowed && host_stdin_is_terminal(),
            FileDescription::Stdout => communicate_allowed && host_stdout_is_terminal(),
            FileDescription::Stderr => communicate_allowed && host_stderr_is_terminal(),
            FileDescription::Null(_) => false,
        }
    }
}

} // verus!
