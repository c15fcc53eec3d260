//! The byte layout of a message on the wire.
//!
//! ```text
//! [0xFF][major][minor][patch]
//! [selector length: u32][selector][zeros up to a multiple of four]
//! [payload length: u32][payload][zeros up to a multiple of four]
//! ```
//!
//! Lengths are little-endian. Handles travel beside the frame, by the
//! system's own means.

use crate::errors::Error;
use crate::util::{align4_up, Align4};
use crate::version::{compatible_triples, own_version, version, Version};
use vstd::bytes::{
    lemma_auto_spec_u32_to_from_le_bytes, spec_u32_from_le_bytes, spec_u32_to_le_bytes,
    u32_from_le_bytes, u32_to_le_bytes,
};
use vstd::prelude::*;
use vstd::slice::slice_subrange;

verus! {

/// The first byte of every frame.
pub const MAGIC: u8 = 0xFF;

/// The bytes before the selector: magic, version and the selector's length.
pub const SELECTOR_START: usize = 8;

/// The zeros that follow a part of `len` bytes.
pub open spec fn padding(len: int) -> Seq<u8> {
    Seq::new((align4_up(len) - len) as nat, |i: int| 0u8)
}

/// A length and the bytes it counts, padded to a multiple of four.
pub open spec fn part_bytes(part: Seq<u8>) -> Seq<u8> {
    spec_u32_to_le_bytes(part.len() as u32) + part + padding(part.len() as int)
}

/// The frame of a selector and a payload, as a peer of version `version`
/// writes it.
pub open spec fn frame_bytes(version: (u8, u8, u8), selector: Seq<u8>, payload: Seq<u8>) -> Seq<
    u8,
> {
    seq![MAGIC, version.0, version.1, version.2] + part_bytes(selector) + part_bytes(payload)
}

/// The length of the frame of a selector of `selector_len` bytes and a
/// payload of `payload_len` bytes.
pub open spec fn frame_len(selector_len: int, payload_len: int) -> int {
    12 + align4_up(selector_len) + align4_up(payload_len)
}

/// Whether a selector and a payload of these lengths can be framed: each
/// length fits its 32-bit field, and the frame's own length fits a `usize`.
pub open spec fn frame_fits(selector_len: int, payload_len: int) -> bool {
    &&& selector_len <= u32::MAX
    &&& payload_len <= u32::MAX
    &&& frame_len(selector_len, payload_len) <= usize::MAX
}

/// Where the parts of a frame lie in its bytes.
#[derive(Debug, Copy, Clone, PartialEq, Eq)]
pub struct FrameLayout {
    /// The version of the peer that wrote the frame.
    pub version: Version,
    pub selector_start: usize,
    pub selector_len: usize,
    pub payload_start: usize,
    pub payload_len: usize,
}

impl FrameLayout {
    /// The selector's bytes in the frame `data`.
    pub open spec fn selector_of(&self, data: Seq<u8>) -> Seq<u8> {
        data.subrange(self.selector_start as int, self.selector_start + self.selector_len)
    }

    /// The payload's bytes in the frame `data`.
    pub open spec fn payload_of(&self, data: Seq<u8>) -> Seq<u8> {
        data.subrange(self.payload_start as int, self.payload_start + self.payload_len)
    }

    /// Whether both parts lie within a frame of `len` bytes, the selector
    /// before the payload.
    pub open spec fn within(&self, len: int) -> bool {
        &&& self.selector_start == SELECTOR_START
        &&& self.selector_start + self.selector_len <= self.payload_start
        &&& self.payload_start + self.payload_len <= len
    }
}

/// The 32-bit length that stands at `at` in `data`.
pub open spec fn length_at(data: Seq<u8>, at: int) -> int {
    spec_u32_from_le_bytes(data.subrange(at, at + 4)) as int
}

/// What a peer of version `own` makes of the bytes `data`.
///
/// Nothing at all, or a frame cut short, counts as a peer that has gone. A
/// first byte other than the magic byte is reported as version `0.0.0`; a
/// version that is not compatible with `own` is reported as it stands.
pub open spec fn parsed(data: Seq<u8>, own: (u8, u8, u8)) -> Result<FrameLayout, Error> {
    if data.len() == 0 {
        Err(Error::Disconnect)
    } else if data[0] != MAGIC {
        Err(Error::VersionMismatch(Version { major: 0, minor: 0, patch: 0 }))
    } else if data.len() < 4 {
        Err(Error::Disconnect)
    } else if !compatible_triples(own, (data[1], data[2], data[3])) {
        Err(Error::VersionMismatch(Version { major: data[1], minor: data[2], patch: data[3] }))
    } else if data.len() < SELECTOR_START {
        Err(Error::Disconnect)
    } else {
        let selector_len = length_at(data, 4);
        let payload_at = SELECTOR_START + align4_up(selector_len);
        if payload_at + 4 > data.len() {
            Err(Error::Disconnect)
        } else {
            let payload_len = length_at(data, payload_at);
            if payload_at + 4 + payload_len > data.len() {
                Err(Error::Disconnect)
            } else {
                Ok(
                    FrameLayout {
                        version: Version { major: data[1], minor: data[2], patch: data[3] },
                        selector_start: SELECTOR_START,
                        selector_len: selector_len as usize,
                        payload_start: (payload_at + 4) as usize,
                        payload_len: payload_len as usize,
                    },
                )
            }
        }
    }
}

/// Appends `bytes` to `frame`.
pub(crate) fn append_bytes(frame: &mut Vec<u8>, bytes: &[u8])
    ensures
        final(frame)@ == old(frame)@ + bytes@,
{
    let mut i: usize = 0;
    while i < bytes.len()
        invariant
            i <= bytes@.len(),
            frame@ == old(frame)@ + bytes@.take(i as int),
        decreases bytes@.len() - i,
    {
        frame.push(bytes[i]);
        i += 1;
    }
}

/// Appends a part to `frame`: its length, its bytes and its padding.
pub(crate) fn append_part(frame: &mut Vec<u8>, part: &[u8])
    requires
        part@.len() <= u32::MAX,
    ensures
        final(frame)@ == old(frame)@ + part_bytes(part@),
{
    let len_bytes = u32_to_le_bytes(part.len() as u32);
    append_bytes(frame, len_bytes.as_slice());
    append_bytes(frame, part);
    let ghost unpadded = frame@;
    let len = part.len() as u64;
    let zeros = len.align4() - len;
    let mut pushed: u64 = 0;
    while pushed < zeros
        invariant
            pushed <= zeros,
            zeros == padding(part@.len() as int).len(),
            frame@ == unpadded + padding(part@.len() as int).take(pushed as int),
        decreases zeros - pushed,
    {
        frame.push(0u8);
        pushed += 1;
    }
}

/// The frame of a selector and a payload; `None` where they cannot be
/// framed.
pub fn build_frame(version: Version, selector: &[u8], payload: &[u8]) -> (frame: Option<Vec<u8>>)
    ensures
        frame is Some <==> frame_fits(selector@.len() as int, payload@.len() as int),
        frame matches Some(bytes) ==> bytes@ == frame_bytes(version@, selector@, payload@),
{
    let selector_len = selector.len() as u64;
    let payload_len = payload.len() as u64;
    if selector_len > u32::MAX as u64 || payload_len > u32::MAX as u64 {
        return None;
    }
    let total: u64 = 12 + selector_len.align4() + payload_len.align4();
    if total > usize::MAX as u64 {
        return None;
    }
    let mut frame: Vec<u8> = Vec::with_capacity(total as usize);
    frame.push(MAGIC);
    frame.push(version.major());
    frame.push(version.minor());
    frame.push(version.patch());
    append_part(&mut frame, selector);
    append_part(&mut frame, payload);
    Some(frame)
}

/// Takes the frame `data` apart as a peer of version `own` does.
pub fn parse_frame_as(data: &[u8], own: Version) -> (layout: Result<FrameLayout, Error>)
    ensures
        layout == parsed(data@, own@),
        layout matches Ok(l) ==> l.within(data@.len() as int),
{
    if data.len() == 0 {
        return Err(Error::Disconnect);
    }
    if data[0] != MAGIC {
        return Err(Error::VersionMismatch(Version::new(0, 0, 0)));
    }
    if data.len() < 4 {
        return Err(Error::Disconnect);
    }
    let remote = Version::new(data[1], data[2], data[3]);
    if !own.compatible(remote) {
        return Err(Error::VersionMismatch(remote));
    }
    if data.len() < SELECTOR_START {
        return Err(Error::Disconnect);
    }
    let selector_len = u32_from_le_bytes(slice_subrange(data, 4, 8)) as u64;
    let payload_at: u64 = SELECTOR_START as u64 + selector_len.align4();
    if payload_at + 4 > data.len() as u64 {
        return Err(Error::Disconnect);
    }
    let at = payload_at as usize;
    let payload_len = u32_from_le_bytes(slice_subrange(data, at, at + 4)) as u64;
    if payload_at + 4 + payload_len > data.len() as u64 {
        return Err(Error::Disconnect);
    }
    Ok(
        FrameLayout {
            version: remote,
            selector_start: SELECTOR_START,
            selector_len: selector_len as usize,
            payload_start: at + 4,
            payload_len: payload_len as usize,
        },
    )
}

/// Takes the frame `data` apart as this library's own version does.
pub fn parse_frame(data: &[u8]) -> (layout: Result<FrameLayout, Error>)
    ensures
        layout == parsed(data@, own_version()),
        layout matches Ok(l) ==> l.within(data@.len() as int),
{
    parse_frame_as(data, version())
}

/// The length of a part with its length field and padding.
pub proof fn lemma_part_len(part: Seq<u8>)
    ensures
        part_bytes(part).len() == 4 + align4_up(part.len() as int),
{
    lemma_auto_spec_u32_to_from_le_bytes();
}

/// A frame is as long as `frame_len` says.
pub proof fn lemma_frame_len(version: (u8, u8, u8), selector: Seq<u8>, payload: Seq<u8>)
    ensures
        frame_bytes(version, selector, payload).len() == frame_len(
            selector.len() as int,
            payload.len() as int,
        ),
{
    lemma_part_len(selector);
    lemma_part_len(payload);
}

/// What was framed is what comes out: a peer whose version is compatible
/// with the writer's finds in a frame the writer's version, the selector and
/// the payload, byte for byte.
pub proof fn lemma_frame_round_trip(
    version: (u8, u8, u8),
    own: (u8, u8, u8),
    selector: Seq<u8>,
    payload: Seq<u8>,
)
    requires
        frame_fits(selector.len() as int, payload.len() as int),
        compatible_triples(own, version),
    ensures
        parsed(frame_bytes(version, selector, payload), own) matches Ok(layout) && layout.version@
            == version && layout.selector_of(frame_bytes(version, selector, payload)) == selector
            && layout.payload_of(frame_bytes(version, selector, payload)) == payload,
{
    lemma_auto_spec_u32_to_from_le_bytes();
    lemma_part_len(selector);
    lemma_part_len(payload);
    let data = frame_bytes(version, selector, payload);
    assert(data[0] == MAGIC && data[1] == version.0 && data[2] == version.1 && data[3]
        == version.2);
    assert(data.subrange(4, 8) =~= spec_u32_to_le_bytes(selector.len() as u32));
    let payload_at = SELECTOR_START + align4_up(selector.len() as int);
    assert(data.subrange(payload_at, payload_at + 4) =~= spec_u32_to_le_bytes(
        payload.len() as u32,
    ));
    assert(parsed(data, own) is Ok);
    assert(parsed(data, own)->Ok_0.selector_of(data) =~= selector);
    assert(parsed(data, own)->Ok_0.payload_of(data) =~= payload);
}

/// Bytes that do not start with the magic byte are reported as version
/// `0.0.0`, whatever follows.
pub proof fn lemma_bad_magic(data: Seq<u8>, own: (u8, u8, u8))
    requires
        data.len() > 0,
        data[0] != MAGIC,
    ensures
        parsed(data, own) == Err::<FrameLayout, Error>(
            Error::VersionMismatch(Version { major: 0, minor: 0, patch: 0 }),
        ),
{
}

/// A frame of a version that is not compatible with the reader's is
/// reported with the writer's version.
pub proof fn lemma_incompatible_frame(
    version: (u8, u8, u8),
    own: (u8, u8, u8),
    selector: Seq<u8>,
    payload: Seq<u8>,
)
    requires
        !compatible_triples(own, version),
    ensures
        parsed(frame_bytes(version, selector, payload), own) == Err::<FrameLayout, Error>(
            Error::VersionMismatch(
                Version { major: version.0, minor: version.1, patch: version.2 },
            ),
        ),
{
    let data = frame_bytes(version, selector, payload);
    assert(data[0] == MAGIC && data[1] == version.0 && data[2] == version.1 && data[3]
        == version.2);
}

/// Where the selector and the payload lie in a message.
#[derive(Debug, Copy, Clone, PartialEq, Eq)]
pub struct PartsLayout {
    pub selector_start: usize,
    pub selector_len: usize,
    pub payload_start: usize,
    pub payload_len: usize,
}

impl PartsLayout {
    /// The selector's bytes in the message `data`.
    pub open spec fn selector_of(&self, data: Seq<u8>) -> Seq<u8> {
        data.subrange(self.selector_start as int, self.selector_start + self.selector_len)
    }

    /// The payload's bytes in the message `data`.
    pub open spec fn payload_of(&self, data: Seq<u8>) -> Seq<u8> {
        data.subrange(self.payload_start as int, self.payload_start + self.payload_len)
    }
}

/// Where the two parts lie of which the first, with its length in front,
/// starts at `at` in `data`; `None` where `data` ends before the parts do.
pub open spec fn parts_parsed(data: Seq<u8>, at: int) -> Option<PartsLayout> {
    if at < 0 || at + 4 > data.len() {
        None
    } else {
        let selector_len = length_at(data, at);
        let payload_at = at + 4 + align4_up(selector_len);
        if payload_at + 4 > data.len() {
            None
        } else {
            let payload_len = length_at(data, payload_at);
            if payload_at + 4 + payload_len > data.len() {
                None
            } else {
                Some(
                    PartsLayout {
                        selector_start: (at + 4) as usize,
                        selector_len: selector_len as usize,
                        payload_start: (payload_at + 4) as usize,
                        payload_len: payload_len as usize,
                    },
                )
            }
        }
    }
}

/// Finds the two parts of which the first, with its length in front, starts
/// at `at` in `data`.
pub fn parse_parts(data: &[u8], at: usize) -> (parts: Option<PartsLayout>)
    ensures
        parts == parts_parsed(data@, at as int),
        parts matches Some(p) ==> p.selector_start + p.selector_len <= p.payload_start
            && p.payload_start + p.payload_len <= data@.len(),
{
    let len = data.len() as u64;
    let at = at as u64;
    if at > len || len - at < 4 {
        return None;
    }
    let start = at as usize;
    let selector_len = u32_from_le_bytes(slice_subrange(data, start, start + 4)) as u64;
    let aligned = selector_len.align4();
    let rest = len - at - 4;
    if aligned > rest || rest - aligned < 4 {
        return None;
    }
    let second = (at + 4 + aligned) as usize;
    let payload_len = u32_from_le_bytes(slice_subrange(data, second, second + 4)) as u64;
    if payload_len > rest - aligned - 4 {
        return None;
    }
    Some(
        PartsLayout {
            selector_start: start + 4,
            selector_len: selector_len as usize,
            payload_start: second + 4,
            payload_len: payload_len as usize,
        },
    )
}

/// The two parts come out of a message as they went in, whatever stands in
/// front of them.
pub proof fn lemma_parts_round_trip(head: Seq<u8>, selector: Seq<u8>, payload: Seq<u8>)
    requires
        selector.len() <= u32::MAX,
        payload.len() <= u32::MAX,
        head.len() + 8 + align4_up(selector.len() as int) + align4_up(payload.len() as int)
            <= usize::MAX,
    ensures
        parts_parsed(head + part_bytes(selector) + part_bytes(payload), head.len() as int)
            matches Some(parts) && parts.selector_of(
            head + part_bytes(selector) + part_bytes(payload),
        ) == selector && parts.payload_of(head + part_bytes(selector) + part_bytes(payload))
            == payload,
{
    lemma_auto_spec_u32_to_from_le_bytes();
    lemma_part_len(selector);
    lemma_part_len(payload);
    let data = head + part_bytes(selector) + part_bytes(payload);
    let at = head.len() as int;
    assert(data.subrange(at, at + 4) =~= spec_u32_to_le_bytes(selector.len() as u32));
    let payload_at = at + 4 + align4_up(selector.len() as int);
    assert(data.subrange(payload_at, payload_at + 4) =~= spec_u32_to_le_bytes(
        payload.len() as u32,
    ));
    assert(parts_parsed(data, at) is Some);
    assert(parts_parsed(data, at)->Some_0.selector_of(data) =~= selector);
    assert(parts_parsed(data, at)->Some_0.payload_of(data) =~= payload);
}

} // verus!
