//! The byte layout of a message on a named pipe, where handles are plain
//! numbers that the sender has made valid in the receiver's process.
//!
//! ```text
//! [0xFF][major][minor][patch]
//! [reply process: u64][reply pipe: u64]
//! [number of handles: u32][handle: u64] * N
//! [selector length: u32][selector][zeros up to a multiple of four]
//! [payload length: u32][payload][zeros up to a multiple of four]
//! ```
//!
//! Numbers are little-endian. The reply pair tells through which pipe, and
//! into which process, answers go; two zeros stand for none. The handles of
//! the regions are the last of the handles.

use crate::errors::Error;
use crate::frame::{
    append_bytes, append_part, lemma_part_len, lemma_parts_round_trip, length_at, parse_parts,
    part_bytes, parts_parsed, PartsLayout, MAGIC,
};
use crate::util::{align4_up, Align4};
use crate::version::{compatible_triples, Version};
use vstd::bytes::{
    lemma_auto_spec_u32_to_from_le_bytes, lemma_auto_spec_u64_to_from_le_bytes,
    spec_u32_to_le_bytes, spec_u64_from_le_bytes, spec_u64_to_le_bytes, u32_from_le_bytes,
    u32_to_le_bytes, u64_from_le_bytes, u64_to_le_bytes,
};
use vstd::prelude::*;
use vstd::slice::slice_subrange;

verus! {

/// Where the handles start: behind the version, the reply pair and the
/// number of handles.
pub const PIPE_HANDLES_START: usize = 24;

/// The bytes of the handles, eight for each, in their order.
pub open spec fn handles_bytes(handles: Seq<u64>) -> Seq<u8>
    decreases handles.len(),
{
    if handles.len() == 0 {
        Seq::empty()
    } else {
        handles_bytes(handles.drop_last()) + spec_u64_to_le_bytes(handles.last())
    }
}

/// What stands in front of the selector: the version, the reply pair, and
/// the handles with their number.
pub open spec fn pipe_head(version: (u8, u8, u8), reply: (u64, u64), handles: Seq<u64>) -> Seq<u8> {
    seq![MAGIC, version.0, version.1, version.2] + spec_u64_to_le_bytes(reply.0)
        + spec_u64_to_le_bytes(reply.1) + spec_u32_to_le_bytes(handles.len() as u32)
        + handles_bytes(handles)
}

/// The message of a selector and a payload with the handles `handles`, as a
/// peer of version `version` writes it.
pub open spec fn pipe_bytes(
    version: (u8, u8, u8),
    reply: (u64, u64),
    handles: Seq<u64>,
    selector: Seq<u8>,
    payload: Seq<u8>,
) -> Seq<u8> {
    pipe_head(version, reply, handles) + part_bytes(selector) + part_bytes(payload)
}

/// The length of a message with `handles` handles.
pub open spec fn pipe_len(handles: int, selector_len: int, payload_len: int) -> int {
    PIPE_HANDLES_START + 8 * handles + 8 + align4_up(selector_len) + align4_up(payload_len)
}

/// Whether a message can be written: the number of handles and the lengths
/// of selector and payload fit their 32-bit fields, and the length of the
/// message fits a `usize`.
pub open spec fn pipe_fits(handles: int, selector_len: int, payload_len: int) -> bool {
    &&& handles <= u32::MAX
    &&& selector_len <= u32::MAX
    &&& payload_len <= u32::MAX
    &&& pipe_len(handles, selector_len, payload_len) <= usize::MAX
}

/// The reply pair that two numbers tell: none where one of them is zero.
pub open spec fn reply_of(process: u64, pipe: u64) -> Option<(u64, u64)> {
    if process > 0 && pipe > 0 {
        Some((process, pipe))
    } else {
        None
    }
}

/// The 64-bit number that stands at `at` in `data`.
pub open spec fn u64_at(data: Seq<u8>, at: int) -> u64 {
    spec_u64_from_le_bytes(data.subrange(at, at + 8))
}

/// The `i`-th handle of the message `data`.
pub open spec fn handle_at(data: Seq<u8>, i: int) -> u64 {
    u64_at(data, PIPE_HANDLES_START + 8 * i)
}

/// Where the parts of a pipe message lie in its bytes.
#[derive(Debug, Copy, Clone, PartialEq, Eq)]
pub struct PipeLayout {
    /// The version of the peer that wrote the message.
    pub version: Version,
    /// Where answers go, if the sender told.
    pub reply: Option<(u64, u64)>,
    /// How many handles the message carries, from `PIPE_HANDLES_START` on.
    pub handle_count: usize,
    pub parts: PartsLayout,
}

/// What a peer of version `own` makes of the bytes `data`.
///
/// Nothing at all, or a message cut short, counts as a peer that has gone.
/// A first byte other than the magic byte is reported as version `0.0.0`; a
/// version that is not compatible with `own` is reported as it stands.
pub open spec fn pipe_parsed(data: Seq<u8>, own: (u8, u8, u8)) -> Result<PipeLayout, Error> {
    if data.len() == 0 {
        Err(Error::Disconnect)
    } else if data[0] != MAGIC {
        Err(Error::VersionMismatch(Version { major: 0, minor: 0, patch: 0 }))
    } else if data.len() < 4 {
        Err(Error::Disconnect)
    } else if !compatible_triples(own, (data[1], data[2], data[3])) {
        Err(Error::VersionMismatch(Version { major: data[1], minor: data[2], patch: data[3] }))
    } else if data.len() < PIPE_HANDLES_START {
        Err(Error::Disconnect)
    } else {
        let count = length_at(data, 20);
        match parts_parsed(data, PIPE_HANDLES_START + 8 * count) {
            None => Err(Error::Disconnect),
            Some(parts) => Ok(
                PipeLayout {
                    version: Version { major: data[1], minor: data[2], patch: data[3] },
                    reply: reply_of(u64_at(data, 4), u64_at(data, 12)),
                    handle_count: count as usize,
                    parts,
                },
            ),
        }
    }
}

/// The reply pair of the bytes `data`, as far as they reach: it is wanted
/// also where the version of the message is refused, to tell the sender so.
pub open spec fn reply_in(data: Seq<u8>) -> Option<(u64, u64)> {
    if data.len() < 20 {
        None
    } else {
        reply_of(u64_at(data, 4), u64_at(data, 12))
    }
}

/// The message of a selector and a payload with the handles `handles`;
/// `None` where it cannot be written.
pub fn build_pipe_message(
    version: Version,
    reply: (u64, u64),
    handles: &[u64],
    selector: &[u8],
    payload: &[u8],
) -> (message: Option<Vec<u8>>)
    ensures
        message is Some <==> pipe_fits(
            handles@.len() as int,
            selector@.len() as int,
            payload@.len() as int,
        ),
        message matches Some(bytes) ==> bytes@ == pipe_bytes(
            version@,
            reply,
            handles@,
            selector@,
            payload@,
        ),
{
    let count = handles.len() as u64;
    let selector_len = selector.len() as u64;
    let payload_len = payload.len() as u64;
    if count > u32::MAX as u64 || selector_len > u32::MAX as u64 || payload_len > u32::MAX as u64 {
        return None;
    }
    let total: u64 = PIPE_HANDLES_START as u64 + 8 * count + 8 + selector_len.align4()
        + payload_len.align4();
    if total > usize::MAX as u64 {
        return None;
    }
    let mut message: Vec<u8> = Vec::with_capacity(total as usize);
    message.push(MAGIC);
    message.push(version.major());
    message.push(version.minor());
    message.push(version.patch());
    assert(message@ =~= seq![MAGIC, version@.0, version@.1, version@.2]);
    append_bytes(&mut message, u64_to_le_bytes(reply.0).as_slice());
    append_bytes(&mut message, u64_to_le_bytes(reply.1).as_slice());
    append_bytes(&mut message, u32_to_le_bytes(handles.len() as u32).as_slice());
    let ghost front = message@;
    let mut i: usize = 0;
    while i < handles.len()
        invariant
            i <= handles@.len(),
            message@ == front + handles_bytes(handles@.take(i as int)),
        decreases handles@.len() - i,
    {
        append_bytes(&mut message, u64_to_le_bytes(handles[i]).as_slice());
        proof {
            assert(handles@.take(i + 1).drop_last() =~= handles@.take(i as int));
            assert(handles@.take(i + 1).last() == handles@[i as int]);
            assert(message@ =~= front + handles_bytes(handles@.take(i + 1)));
        }
        i += 1;
    }
    proof {
        assert(handles@.take(i as int) =~= handles@);
        assert(message@ =~= pipe_head(version@, reply, handles@));
    }
    append_part(&mut message, selector);
    append_part(&mut message, payload);
    Some(message)
}

/// Takes the message `data` apart as a peer of version `own` does.
pub fn parse_pipe_message(data: &[u8], own: Version) -> (layout: Result<PipeLayout, Error>)
    ensures
        layout == pipe_parsed(data@, own@),
        layout matches Ok(l) ==> PIPE_HANDLES_START + 8 * l.handle_count <= l.parts.selector_start
            && l.parts.selector_start + l.parts.selector_len <= l.parts.payload_start
            && l.parts.payload_start + l.parts.payload_len <= data@.len(),
{
    if data.len() == 0 {
        return Err(Error::Disconnect);
    }
    if data[0] != MAGIC {
        return Err(Error::VersionMismatch(Version::new(0, 0, 0)));
    }
    if data.len() < 4 {
        return Err(Error::Disconnect);
    }
    let remote = Version::new(data[1], data[2], data[3]);
    if !own.compatible(remote) {
        return Err(Error::VersionMismatch(remote));
    }
    if data.len() < PIPE_HANDLES_START {
        return Err(Error::Disconnect);
    }
    let process = u64_from_le_bytes(slice_subrange(data, 4, 12));
    let pipe = u64_from_le_bytes(slice_subrange(data, 12, 20));
    let count = u32_from_le_bytes(slice_subrange(data, 20, 24)) as u64;
    let parts_at: u64 = PIPE_HANDLES_START as u64 + 8 * count;
    if parts_at > data.len() as u64 {
        return Err(Error::Disconnect);
    }
    match parse_parts(data, parts_at as usize) {
        None => Err(Error::Disconnect),
        Some(parts) => Ok(
            PipeLayout {
                version: remote,
                reply: if process > 0 && pipe > 0 {
                    Some((process, pipe))
                } else {
                    None
                },
                handle_count: count as usize,
                parts,
            },
        ),
    }
}

/// The reply pair of the message `data`, as far as its bytes reach.
pub fn pipe_reply(data: &[u8]) -> (reply: Option<(u64, u64)>)
    ensures
        reply == reply_in(data@),
{
    if data.len() < 20 {
        return None;
    }
    let process = u64_from_le_bytes(slice_subrange(data, 4, 12));
    let pipe = u64_from_le_bytes(slice_subrange(data, 12, 20));
    if process > 0 && pipe > 0 {
        Some((process, pipe))
    } else {
        None
    }
}

/// The first `count` handles of the message `data`; `None` where the
/// message is too short to hold them.
pub fn pipe_handles(data: &[u8], count: usize) -> (handles: Option<Vec<u64>>)
    ensures
        handles is Some <==> PIPE_HANDLES_START + 8 * count <= data@.len(),
        handles matches Some(h) ==> h@.len() == count && forall|i: int|
            0 <= i < count ==> #[trigger] h@[i] == handle_at(data@, i),
{
    if data.len() < PIPE_HANDLES_START || (data.len() - PIPE_HANDLES_START) / 8 < count {
        return None;
    }
    let mut handles: Vec<u64> = Vec::new();
    let mut i: usize = 0;
    while i < count
        invariant
            i <= count,
            PIPE_HANDLES_START + 8 * count <= data@.len(),
            data@.len() <= usize::MAX,
            handles@.len() == i,
            forall|j: int| 0 <= j < i ==> #[trigger] handles@[j] == handle_at(data@, j),
        decreases count - i,
    {
        let at = PIPE_HANDLES_START + 8 * i;
        let handle = u64_from_le_bytes(slice_subrange(data, at, at + 8));
        handles.push(handle);
        i += 1;
    }
    Some(handles)
}

/// The bytes of `handles` are eight for each, and each handle stands in its
/// place.
pub proof fn lemma_handles_bytes(handles: Seq<u64>)
    ensures
        handles_bytes(handles).len() == 8 * handles.len(),
        forall|i: int|
            0 <= i < handles.len() ==> #[trigger] handles_bytes(handles).subrange(8 * i, 8 * i + 8)
                == spec_u64_to_le_bytes(handles[i]),
    decreases handles.len(),
{
    lemma_auto_spec_u64_to_from_le_bytes();
    if handles.len() > 0 {
        let init = handles.drop_last();
        lemma_handles_bytes(init);
        let all = handles_bytes(handles);
        assert forall|i: int| 0 <= i < handles.len() implies #[trigger] all.subrange(
            8 * i,
            8 * i + 8,
        ) == spec_u64_to_le_bytes(handles[i]) by {
            if i < init.len() {
                assert(all.subrange(8 * i, 8 * i + 8) =~= handles_bytes(init).subrange(
                    8 * i,
                    8 * i + 8,
                ));
                assert(init[i] == handles[i]);
            } else {
                assert(all.subrange(8 * i, 8 * i + 8) =~= spec_u64_to_le_bytes(handles.last()));
            }
        }
    }
}

/// What was written is what comes out: a peer whose version is compatible
/// with the writer's finds in a message the writer's version, the reply pair,
/// the handles in their order, the selector and the payload.
pub proof fn lemma_pipe_round_trip(
    version: (u8, u8, u8),
    own: (u8, u8, u8),
    reply: (u64, u64),
    handles: Seq<u64>,
    selector: Seq<u8>,
    payload: Seq<u8>,
)
    requires
        pipe_fits(handles.len() as int, selector.len() as int, payload.len() as int),
        compatible_triples(own, version),
    ensures
        pipe_parsed(pipe_bytes(version, reply, handles, selector, payload), own) matches Ok(layout)
            && {
            let data = pipe_bytes(version, reply, handles, selector, payload);
            &&& layout.version@ == version
            &&& layout.reply == reply_of(reply.0, reply.1)
            &&& layout.handle_count == handles.len()
            &&& forall|i: int| 0 <= i < handles.len() ==> #[trigger] handle_at(data, i) == handles[i]
            &&& layout.parts.selector_of(data) == selector
            &&& layout.parts.payload_of(data) == payload
        },
{
    lemma_auto_spec_u32_to_from_le_bytes();
    lemma_auto_spec_u64_to_from_le_bytes();
    lemma_handles_bytes(handles);
    lemma_part_len(selector);
    lemma_part_len(payload);
    let head = pipe_head(version, reply, handles);
    let data = pipe_bytes(version, reply, handles, selector, payload);
    assert(head.len() == PIPE_HANDLES_START + 8 * handles.len());
    lemma_parts_round_trip(head, selector, payload);
    assert(data[0] == MAGIC && data[1] == version.0 && data[2] == version.1 && data[3]
        == version.2);
    assert(data.subrange(4, 12) =~= spec_u64_to_le_bytes(reply.0));
    assert(data.subrange(12, 20) =~= spec_u64_to_le_bytes(reply.1));
    assert(data.subrange(20, 24) =~= spec_u32_to_le_bytes(handles.len() as u32));
    assert forall|i: int| 0 <= i < handles.len() implies #[trigger] handle_at(data, i)
        == handles[i] by {
        assert(data.subrange(PIPE_HANDLES_START + 8 * i, PIPE_HANDLES_START + 8 * i + 8)
            =~= handles_bytes(handles).subrange(8 * i, 8 * i + 8));
    }
}

} // verus!
