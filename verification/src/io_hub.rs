//! What an endpoint's hub makes of the readiness of the things it waits on,
//! and the names under which a bus is found on each system.

use crate::errors::Error;
use crate::time::TimeSpan;
use crate::util::swap_removed;
use vstd::prelude::*;

verus! {

/// What has become ready.
#[derive(Debug, Copy, Clone, PartialEq, Eq, Structural)]
pub enum Readiness {
    /// Somebody woke the hub: clear the waker and go on.
    Waker,
    /// A client knocks: accept it.
    Listener,
    /// The transport at this place of the hub's list has a message.
    Local(usize),
    /// Nothing that the hub knows.
    Unknown,
}

/// The first place of `locals` that holds `token`; the length of `locals`
/// where none does.
pub open spec fn first_place(locals: Seq<u64>, token: u64, from: int) -> int
    decreases locals.len() - from,
{
    if from < 0 || from >= locals.len() {
        locals.len() as int
    } else if locals[from] == token {
        from
    } else {
        first_place(locals, token, from + 1)
    }
}

/// What the readiness told by `token` belongs to. The waker is looked for
/// first, then the listener, then the transports in their order.
pub open spec fn readiness_of(token: u64, waker: u64, listener: Option<u64>, locals: Seq<u64>)
    -> Readiness {
    if token == waker {
        Readiness::Waker
    } else if listener == Some(token) {
        Readiness::Listener
    } else if first_place(locals, token, 0) < locals.len() {
        Readiness::Local(first_place(locals, token, 0) as usize)
    } else {
        Readiness::Unknown
    }
}

/// What the readiness told by `token` belongs to, for a hub with the waker
/// `waker`, the listener `listener` if it has one, and the transports
/// `locals`, each told by its raw value.
pub fn dispatch(token: u64, waker: u64, listener: Option<u64>, locals: &Vec<u64>) -> (ready:
    Readiness)
    ensures
        ready == readiness_of(token, waker, listener, locals@),
        ready matches Readiness::Local(i) ==> i < locals@.len() && locals@[i as int] == token,
{
    if token == waker {
        return Readiness::Waker;
    }
    if let Some(l) = listener {
        if l == token {
            return Readiness::Listener;
        }
    }
    let mut i: usize = 0;
    while i < locals.len()
        invariant
            token != waker,
            listener != Some(token),
            i <= locals@.len(),
            first_place(locals@, token, 0) == first_place(locals@, token, i as int),
        decreases locals@.len() - i,
    {
        if locals[i] == token {
            return Readiness::Local(i);
        }
        i += 1;
    }
    Readiness::Unknown
}

/// What a wait that found `ready` things ready means for the receiver: where
/// nothing is ready the time is over, which is `Timeout`.
pub fn after_wait(ready: usize) -> (woken: Result<(), Error>)
    ensures
        ready == 0 <==> woken is Err,
        woken matches Err(e) ==> e == Error::Timeout,
{
    if ready == 0 {
        Err(Error::Timeout)
    } else {
        Ok(())
    }
}

/// Settles a read from the transport at place `at` of the hub's list
/// `locals`: what was read is handed on as it is, and a transport whose read
/// failed leaves the list, the last one taking its place.
pub fn after_read<L, M>(locals: &mut Vec<L>, at: usize, read: Result<M, Error>) -> (handed: Result<
    M,
    Error,
>)
    ensures
        handed == read,
        read is Err && at < old(locals)@.len() ==> final(locals)@ == swap_removed(
            old(locals)@,
            at as int,
        ),
        !(read is Err && at < old(locals)@.len()) ==> final(locals)@ == old(locals)@,
{
    if read.is_err() && at < locals.len() {
        let _ = locals.swap_remove(at);
    }
    read
}

/// Why the system refused to connect or to bind a socket.
#[derive(Debug, Copy, Clone, PartialEq, Eq, Structural)]
pub enum Refusal {
    /// Nobody listens at the address.
    ConnectionRefused,
    /// There is no such address.
    NotFound,
    /// The address is taken.
    AddrInUse,
    /// The caller may not do this.
    PermissionDenied,
    /// Anything else.
    Other,
}

/// What a refused connect means to an endpoint that looks a bus up: where
/// nobody has the name, the identifier is not in use.
pub fn look_up_error(refusal: Refusal) -> (error: Error)
    ensures
        error == match refusal {
            Refusal::ConnectionRefused => Error::IdentifierNotInUse,
            Refusal::NotFound => Error::IdentifierNotInUse,
            Refusal::PermissionDenied => Error::PermissionDenied,
            _ => Error::Unknown,
        },
{
    match refusal {
        Refusal::ConnectionRefused => Error::IdentifierNotInUse,
        Refusal::NotFound => Error::IdentifierNotInUse,
        Refusal::PermissionDenied => Error::PermissionDenied,
        _ => Error::Unknown,
    }
}

/// What a refused bind means to an endpoint that registers a bus: where the
/// name is taken, the identifier is in use.
pub fn register_error(refusal: Refusal) -> (error: Error)
    ensures
        error == match refusal {
            Refusal::AddrInUse => Error::IdentifierInUse,
            Refusal::PermissionDenied => Error::PermissionDenied,
            _ => Error::Unknown,
        },
{
    match refusal {
        Refusal::AddrInUse => Error::IdentifierInUse,
        Refusal::PermissionDenied => Error::PermissionDenied,
        _ => Error::Unknown,
    }
}

/// Whole milliseconds of a span of `nanos` nanoseconds.
pub open spec fn millis_of(nanos: nat) -> nat {
    nanos / 1_000_000
}

/// The timeout to wait with, in the milliseconds that the system counts in:
/// `-1`, which is forever, where there is no timeout, and no more than the
/// system can count where the timeout is longer than that.
pub fn wait_millis(timeout: Option<TimeSpan>) -> (millis: i32)
    ensures
        match timeout {
            None => millis == -1,
            Some(t) => if millis_of(t@) > i32::MAX {
                millis == i32::MAX
            } else {
                millis == millis_of(t@)
            },
        },
{
    match timeout {
        None => -1,
        Some(t) => {
            let millis = t.as_nanos() / 1_000_000;
            if millis > i32::MAX as u128 {
                i32::MAX
            } else {
                millis as i32
            }
        },
    }
}

/// The size to which the buffers of a socket are set, where the system lets
/// them be set: 64 KiB.
pub const SOCKET_BUFFER_SIZE: i32 = 64 << 10;

/// The size of the buffers of a named pipe: 4 MiB.
pub const PIPE_BUFFER_SIZE: u32 = 4 << 20;

/// How many clients may wait to be accepted.
pub const LISTEN_BACKLOG: i32 = 32;

/// The length of the path of a socket address.
pub const SOCKET_PATH_LEN: usize = 108;

/// The path of the socket address of the bus `identifier`, in the abstract
/// namespace: a zero byte, the bytes of the identifier as far as there is
/// room for them, and zeros to the end. The last byte is always zero.
pub open spec fn socket_path(identifier: Seq<u8>) -> Seq<u8> {
    Seq::new(
        SOCKET_PATH_LEN as nat,
        |i: int|
            if 1 <= i <= SOCKET_PATH_LEN - 2 && i - 1 < identifier.len() {
                identifier[i - 1]
            } else {
                0u8
            },
    )
}

/// The path of the socket address of the bus `identifier`; `None` for an
/// identifier with a zero byte in it, which no address can tell.
pub fn identifier_to_socket_addr(identifier: &[u8]) -> (path: Option<Vec<u8>>)
    ensures
        path is Some <==> !identifier@.contains(0u8),
        path matches Some(p) ==> p@ == socket_path(identifier@),
{
    let bytes = identifier;
    let mut path: Vec<u8> = Vec::with_capacity(SOCKET_PATH_LEN);
    path.push(0u8);
    let mut i: usize = 1;
    while i < SOCKET_PATH_LEN
        invariant
            1 <= i <= SOCKET_PATH_LEN,
            bytes@ == identifier@,
            path@.len() == i,
            forall|j: int| 0 <= j < i ==> path@[j] == socket_path(bytes@)[j],
            forall|j: int|
                0 <= j < i - 1 && j < bytes@.len() && j < SOCKET_PATH_LEN - 2 ==> bytes@[j] != 0u8,
        decreases SOCKET_PATH_LEN - i,
    {
        if i <= SOCKET_PATH_LEN - 2 && i - 1 < bytes.len() {
            let b = bytes[i - 1];
            if b == 0 {
                return None;
            }
            path.push(b);
        } else {
            path.push(0u8);
        }
        i += 1;
    }
    let mut k: usize = SOCKET_PATH_LEN - 2;
    while k < bytes.len()
        invariant
            SOCKET_PATH_LEN - 2 <= k,
            bytes@ == identifier@,
            forall|j: int| 0 <= j < k && j < bytes@.len() ==> bytes@[j] != 0u8,
        decreases bytes@.len() - k,
    {
        if bytes[k] == 0 {
            return None;
        }
        k += 1;
    }
    Some(path)
}

/// What the paths of all named pipes start with.
pub open spec fn pipe_prefix() -> Seq<char> {
    seq!['\\', '\\', '.', '\\', 'p', 'i', 'p', 'e', '\\']
}

/// The path of the named pipe of the bus `identifier`:
/// `\\.\pipe\<identifier>`.
pub fn pipe_path(identifier: &str) -> (path: String)
    ensures
        path@ == pipe_prefix() + identifier@,
{
    proof {
        reveal_strlit("\\\\.\\pipe\\");
    }
    let prefix = "\\\\.\\pipe\\";
    let mut path = String::new();
    path.append(prefix);
    path.append(identifier);
    path
}

/// The bits of the header of a Mach message: how the remote port, the
/// local port and the voucher are handed over, each in a byte of its own,
/// and in the upper bits what else is told of the message.
pub fn mach_msgh_bits_set(remote: u8, local: u8, voucher: u8, other: u32) -> (bits: u32)
    ensures
        bits == (remote as u32) | ((local as u32) << 8) | ((voucher as u32) << 16) | other,
        other & 0x00ff_ffff == 0 ==> bits & 0xff == remote && (bits >> 8) & 0xff == local && (bits
            >> 16) & 0xff == voucher && bits & 0xff00_0000 == other,
{
    let remote = remote as u32;
    let local = local as u32;
    let voucher = voucher as u32;
    let bits = remote | (local << 8) | (voucher << 16) | other;
    assert(remote < 256 && local < 256 && voucher < 256 && other & 0x00ff_ffff == 0 ==> (remote | (
    local << 8) | (voucher << 16) | other) & 0xff == remote && ((remote | (local << 8) | (voucher
        << 16) | other) >> 8) & 0xff == local && ((remote | (local << 8) | (voucher << 16) | other)
        >> 16) & 0xff == voucher && (remote | (local << 8) | (voucher << 16) | other) & 0xff00_0000
        == other) by (bit_vector);
    bits
}

} // verus!
