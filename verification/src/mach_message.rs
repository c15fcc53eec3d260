//! The byte layout of a Mach message that carries a frame: the header of
//! the system, one descriptor for each port that travels with the message,
//! and behind them the version, the selector and the payload.
//!
//! ```text
//! [bits: u32][size: u32][remote port: u32][local port: u32][reserved: u32][id: u32]
//! [number of ports: u32]
//! [port: u32][0: u32][0: u16][disposition: u8][type: u8] * N
//! [0xFF][major][minor][patch]
//! [selector length: u32][selector][zeros up to a multiple of four]
//! [payload length: u32][payload][zeros up to a multiple of four]
//! ```
//!
//! Numbers are little-endian. The ports of the regions are the last of the
//! ports.

use crate::errors::Error;
use crate::frame::{
    append_bytes, append_part, lemma_part_len, lemma_parts_round_trip, length_at, parse_parts,
    part_bytes, parts_parsed, PartsLayout, MAGIC,
};
use crate::io_hub::mach_msgh_bits_set;
use crate::util::{align4_up, Align4};
use crate::version::{compatible_triples, Version};
use vstd::bytes::{
    lemma_auto_spec_u32_to_from_le_bytes, spec_u32_to_le_bytes, u32_from_le_bytes,
    u32_to_le_bytes,
};
use vstd::prelude::*;
use vstd::slice::slice_subrange;

verus! {

/// The length of the header with the number of ports behind it.
pub const MACH_PORTS_START: usize = 28;

/// The length of the descriptor of a port.
pub const MACH_DESCRIPTOR_LEN: usize = 12;

/// How a port is handed over: the receiver gets a send right of its own.
pub const MACH_MSG_TYPE_COPY_SEND: u8 = 19;

/// The kind of a descriptor that tells a port.
pub const MACH_MSG_PORT_DESCRIPTOR: u8 = 0;

/// The mark of a message that carries descriptors.
pub const MACH_MSGH_BITS_COMPLEX: u32 = 0x8000_0000;

/// The bits of the header of every message: the remote port is handed over
/// as a send right, and the message carries descriptors.
pub const MACH_HEADER_BITS: u32 = 0x8000_0013;

/// The descriptor of the port `port`.
pub open spec fn descriptor_bytes(port: u32) -> Seq<u8> {
    spec_u32_to_le_bytes(port) + spec_u32_to_le_bytes(0) + seq![
        0u8,
        0u8,
        MACH_MSG_TYPE_COPY_SEND,
        MACH_MSG_PORT_DESCRIPTOR,
    ]
}

/// The descriptors of the ports, in their order.
pub open spec fn descriptors_bytes(ports: Seq<u32>) -> Seq<u8>
    decreases ports.len(),
{
    if ports.len() == 0 {
        Seq::empty()
    } else {
        descriptors_bytes(ports.drop_last()) + descriptor_bytes(ports.last())
    }
}

/// What stands in front of the selector: the header, which tells the size
/// of the message and the port it goes to, the ports, and the version.
pub open spec fn mach_head(size: u32, remote: u32, ports: Seq<u32>, version: (u8, u8, u8)) -> Seq<
    u8,
> {
    spec_u32_to_le_bytes(MACH_HEADER_BITS) + spec_u32_to_le_bytes(size) + spec_u32_to_le_bytes(
        remote,
    ) + spec_u32_to_le_bytes(0) + spec_u32_to_le_bytes(0) + spec_u32_to_le_bytes(0)
        + spec_u32_to_le_bytes(ports.len() as u32) + descriptors_bytes(ports) + seq![
        MAGIC,
        version.0,
        version.1,
        version.2,
    ]
}

/// The length of a message with `ports` ports.
pub open spec fn mach_len(ports: int, selector_len: int, payload_len: int) -> int {
    MACH_PORTS_START + MACH_DESCRIPTOR_LEN * ports + 4 + 8 + align4_up(selector_len) + align4_up(
        payload_len,
    )
}

/// Whether a message can be written: the number of ports, the lengths of
/// selector and payload and the size of the message fit their 32-bit fields.
pub open spec fn mach_fits(ports: int, selector_len: int, payload_len: int) -> bool {
    &&& ports <= u32::MAX
    &&& selector_len <= u32::MAX
    &&& payload_len <= u32::MAX
    &&& mach_len(ports, selector_len, payload_len) <= u32::MAX
    &&& mach_len(ports, selector_len, payload_len) <= usize::MAX
}

/// The message of a selector and a payload with the ports `ports`, for the
/// port `remote`, as a peer of version `version` writes it.
pub open spec fn mach_bytes(
    remote: u32,
    ports: Seq<u32>,
    version: (u8, u8, u8),
    selector: Seq<u8>,
    payload: Seq<u8>,
) -> Seq<u8> {
    mach_head(
        mach_len(ports.len() as int, selector.len() as int, payload.len() as int) as u32,
        remote,
        ports,
        version,
    ) + part_bytes(selector) + part_bytes(payload)
}

/// The `i`-th port of the message `data`.
pub open spec fn port_at(data: Seq<u8>, i: int) -> u32 {
    length_at(data, MACH_PORTS_START + MACH_DESCRIPTOR_LEN * i) as u32
}

/// Whether the first `count` descriptors of `data` are descriptors of
/// ports.
pub open spec fn tells_ports(data: Seq<u8>, count: int) -> bool {
    forall|i: int|
        0 <= i < count ==> #[trigger] data[MACH_PORTS_START + MACH_DESCRIPTOR_LEN * i + 11]
            == MACH_MSG_PORT_DESCRIPTOR
}

/// Where the parts of a Mach message lie in its bytes.
#[derive(Debug, Copy, Clone, PartialEq, Eq)]
pub struct MachLayout {
    /// The version of the peer that wrote the message.
    pub version: Version,
    /// How many ports the message carries, from `MACH_PORTS_START` on.
    pub port_count: usize,
    pub parts: PartsLayout,
}

/// What a peer of version `own` makes of the bytes `data`.
///
/// A message that is cut short, or that carries a descriptor of another
/// kind than a port, counts as a peer that has gone. Where the byte behind
/// the descriptors is not the magic byte, version `0.0.0` is reported; a
/// version that is not compatible with `own` is reported as it stands.
pub open spec fn mach_parsed(data: Seq<u8>, own: (u8, u8, u8)) -> Result<MachLayout, Error> {
    if data.len() < MACH_PORTS_START {
        Err(Error::Disconnect)
    } else {
        let count = length_at(data, 24);
        let at = MACH_PORTS_START + MACH_DESCRIPTOR_LEN * count;
        if at + 4 > data.len() || !tells_ports(data, count) {
            Err(Error::Disconnect)
        } else if data[at] != MAGIC {
            Err(Error::VersionMismatch(Version { major: 0, minor: 0, patch: 0 }))
        } else if !compatible_triples(own, (data[at + 1], data[at + 2], data[at + 3])) {
            Err(
                Error::VersionMismatch(
                    Version { major: data[at + 1], minor: data[at + 2], patch: data[at + 3] },
                ),
            )
        } else {
            match parts_parsed(data, at + 4) {
                None => Err(Error::Disconnect),
                Some(parts) => Ok(
                    MachLayout {
                        version: Version {
                            major: data[at + 1],
                            minor: data[at + 2],
                            patch: data[at + 3],
                        },
                        port_count: count as usize,
                        parts,
                    },
                ),
            }
        }
    }
}

/// The message of a selector and a payload with the ports `ports`, for the
/// port `remote`; `None` where it cannot be written.
pub fn build_mach_message(
    remote: u32,
    ports: &[u32],
    version: Version,
    selector: &[u8],
    payload: &[u8],
) -> (message: Option<Vec<u8>>)
    ensures
        message is Some <==> mach_fits(
            ports@.len() as int,
            selector@.len() as int,
            payload@.len() as int,
        ),
        message matches Some(bytes) ==> bytes@ == mach_bytes(
            remote,
            ports@,
            version@,
            selector@,
            payload@,
        ),
{
    let count = ports.len() as u64;
    let selector_len = selector.len() as u64;
    let payload_len = payload.len() as u64;
    if count > u32::MAX as u64 || selector_len > u32::MAX as u64 || payload_len > u32::MAX as u64 {
        return None;
    }
    let total: u64 = MACH_PORTS_START as u64 + MACH_DESCRIPTOR_LEN as u64 * count + 4 + 8
        + selector_len.align4() + payload_len.align4();
    if total > u32::MAX as u64 || total > usize::MAX as u64 {
        return None;
    }
    let bits = mach_msgh_bits_set(MACH_MSG_TYPE_COPY_SEND, 0, 0, MACH_MSGH_BITS_COMPLEX);
    assert(bits == MACH_HEADER_BITS) by (bit_vector)
        requires
            bits == (19u8 as u32) | ((0u8 as u32) << 8) | ((0u8 as u32) << 16) | 0x8000_0000u32,
    ;
    let zero = u32_to_le_bytes(0);
    let mut message: Vec<u8> = Vec::with_capacity(total as usize);
    append_bytes(&mut message, u32_to_le_bytes(bits).as_slice());
    append_bytes(&mut message, u32_to_le_bytes(total as u32).as_slice());
    append_bytes(&mut message, u32_to_le_bytes(remote).as_slice());
    append_bytes(&mut message, zero.as_slice());
    append_bytes(&mut message, zero.as_slice());
    append_bytes(&mut message, zero.as_slice());
    append_bytes(&mut message, u32_to_le_bytes(ports.len() as u32).as_slice());
    let ghost front = message@;
    let mut i: usize = 0;
    while i < ports.len()
        invariant
            i <= ports@.len(),
            zero@ == spec_u32_to_le_bytes(0),
            message@ == front + descriptors_bytes(ports@.take(i as int)),
        decreases ports@.len() - i,
    {
        let ghost before = message@;
        append_bytes(&mut message, u32_to_le_bytes(ports[i]).as_slice());
        append_bytes(&mut message, zero.as_slice());
        message.push(0u8);
        message.push(0u8);
        message.push(MACH_MSG_TYPE_COPY_SEND);
        message.push(MACH_MSG_PORT_DESCRIPTOR);
        proof {
            assert(message@ =~= before + descriptor_bytes(ports@[i as int]));
            assert(ports@.take(i + 1).drop_last() =~= ports@.take(i as int));
            assert(ports@.take(i + 1).last() == ports@[i as int]);
            assert(message@ =~= front + descriptors_bytes(ports@.take(i + 1)));
        }
        i += 1;
    }
    message.push(MAGIC);
    message.push(version.major());
    message.push(version.minor());
    message.push(version.patch());
    proof {
        assert(ports@.take(i as int) =~= ports@);
        assert(message@ =~= mach_head(total as u32, remote, ports@, version@));
    }
    append_part(&mut message, selector);
    append_part(&mut message, payload);
    Some(message)
}

/// Takes the message `data` apart as a peer of version `own` does.
pub fn parse_mach_message(data: &[u8], own: Version) -> (layout: Result<MachLayout, Error>)
    ensures
        layout == mach_parsed(data@, own@),
        layout matches Ok(l) ==> MACH_PORTS_START + MACH_DESCRIPTOR_LEN * l.port_count + 8
            <= l.parts.selector_start && l.parts.selector_start + l.parts.selector_len
            <= l.parts.payload_start && l.parts.payload_start + l.parts.payload_len
            <= data@.len(),
{
    let len = data.len() as u64;
    if len < MACH_PORTS_START as u64 {
        return Err(Error::Disconnect);
    }
    let count = u32_from_le_bytes(slice_subrange(data, 24, 28)) as u64;
    let at: u64 = MACH_PORTS_START as u64 + MACH_DESCRIPTOR_LEN as u64 * count;
    if at + 4 > len {
        return Err(Error::Disconnect);
    }
    let start = at as usize;
    let mut i: usize = 0;
    while i < count as usize
        invariant
            i <= count,
            len == data@.len(),
            count == length_at(data@, 24),
            start == MACH_PORTS_START + MACH_DESCRIPTOR_LEN * count,
            start + 4 <= len,
            forall|j: int|
                0 <= j < i ==> #[trigger] data@[MACH_PORTS_START + MACH_DESCRIPTOR_LEN * j + 11]
                    == MACH_MSG_PORT_DESCRIPTOR,
        decreases count - i,
    {
        let kind = data[MACH_PORTS_START + MACH_DESCRIPTOR_LEN * i + 11];
        if kind != MACH_MSG_PORT_DESCRIPTOR {
            proof {
                let j = i as int;
                assert(data@[MACH_PORTS_START + MACH_DESCRIPTOR_LEN * j + 11]
                    != MACH_MSG_PORT_DESCRIPTOR);
            }
            return Err(Error::Disconnect);
        }
        i += 1;
    }
    if data[start] != MAGIC {
        return Err(Error::VersionMismatch(Version::new(0, 0, 0)));
    }
    let remote = Version::new(data[start + 1], data[start + 2], data[start + 3]);
    if !own.compatible(remote) {
        return Err(Error::VersionMismatch(remote));
    }
    match parse_parts(data, start + 4) {
        None => Err(Error::Disconnect),
        Some(parts) => Ok(MachLayout { version: remote, port_count: count as usize, parts }),
    }
}

/// The first `count` ports of the message `data`; `None` where the message
/// is too short to hold them.
pub fn mach_ports(data: &[u8], count: usize) -> (ports: Option<Vec<u32>>)
    ensures
        ports is Some <==> MACH_PORTS_START + MACH_DESCRIPTOR_LEN * count <= data@.len(),
        ports matches Some(p) ==> p@.len() == count && forall|i: int|
            0 <= i < count ==> #[trigger] p@[i] == port_at(data@, i),
{
    if data.len() < MACH_PORTS_START || (data.len() - MACH_PORTS_START) / MACH_DESCRIPTOR_LEN
        < count {
        return None;
    }
    let mut ports: Vec<u32> = Vec::new();
    let mut i: usize = 0;
    while i < count
        invariant
            i <= count,
            MACH_PORTS_START + MACH_DESCRIPTOR_LEN * count <= data@.len(),
            data@.len() <= usize::MAX,
            ports@.len() == i,
            forall|j: int| 0 <= j < i ==> #[trigger] ports@[j] == port_at(data@, j),
        decreases count - i,
    {
        let at = MACH_PORTS_START + MACH_DESCRIPTOR_LEN * i;
        let port = u32_from_le_bytes(slice_subrange(data, at, at + 4));
        ports.push(port);
        i += 1;
    }
    Some(ports)
}

/// The descriptors of `ports` are twelve bytes for each; each port stands
/// in its place and is told as a port.
pub proof fn lemma_descriptors_bytes(ports: Seq<u32>)
    ensures
        descriptors_bytes(ports).len() == MACH_DESCRIPTOR_LEN * ports.len(),
        forall|i: int|
            0 <= i < ports.len() ==> #[trigger] descriptors_bytes(ports).subrange(
                MACH_DESCRIPTOR_LEN * i,
                MACH_DESCRIPTOR_LEN * i + 4,
            ) == spec_u32_to_le_bytes(ports[i]),
        forall|i: int|
            0 <= i < ports.len() ==> #[trigger] descriptors_bytes(ports)[MACH_DESCRIPTOR_LEN * i
                + 11] == MACH_MSG_PORT_DESCRIPTOR,
    decreases ports.len(),
{
    lemma_auto_spec_u32_to_from_le_bytes();
    if ports.len() > 0 {
        let init = ports.drop_last();
        lemma_descriptors_bytes(init);
        let all = descriptors_bytes(ports);
        let last = descriptor_bytes(ports.last());
        assert(last.len() == 12 && last[11] == MACH_MSG_PORT_DESCRIPTOR);
        assert forall|i: int| 0 <= i < ports.len() implies #[trigger] all.subrange(
            MACH_DESCRIPTOR_LEN * i,
            MACH_DESCRIPTOR_LEN * i + 4,
        ) == spec_u32_to_le_bytes(ports[i]) by {
            if i < init.len() {
                assert(all.subrange(MACH_DESCRIPTOR_LEN * i, MACH_DESCRIPTOR_LEN * i + 4)
                    =~= descriptors_bytes(init).subrange(
                    MACH_DESCRIPTOR_LEN * i,
                    MACH_DESCRIPTOR_LEN * i + 4,
                ));
                assert(init[i] == ports[i]);
            } else {
                assert(all.subrange(MACH_DESCRIPTOR_LEN * i, MACH_DESCRIPTOR_LEN * i + 4)
                    =~= spec_u32_to_le_bytes(ports.last()));
            }
        }
        assert forall|i: int| 0 <= i < ports.len() implies #[trigger] all[MACH_DESCRIPTOR_LEN * i
            + 11] == MACH_MSG_PORT_DESCRIPTOR by {
            if i < init.len() {
                assert(all[MACH_DESCRIPTOR_LEN * i + 11] == descriptors_bytes(
                    init,
                )[MACH_DESCRIPTOR_LEN * i + 11]);
            } else {
                assert(all[MACH_DESCRIPTOR_LEN * i + 11] == last[11]);
            }
        }
    }
}

/// What was written is what comes out: a peer whose version is compatible
/// with the writer's finds in a message the writer's version, the ports in
/// their order, the selector and the payload.
pub proof fn lemma_mach_round_trip(
    remote: u32,
    ports: Seq<u32>,
    version: (u8, u8, u8),
    own: (u8, u8, u8),
    selector: Seq<u8>,
    payload: Seq<u8>,
)
    requires
        mach_fits(ports.len() as int, selector.len() as int, payload.len() as int),
        compatible_triples(own, version),
    ensures
        mach_parsed(mach_bytes(remote, ports, version, selector, payload), own) matches Ok(layout)
            && {
            let data = mach_bytes(remote, ports, version, selector, payload);
            &&& layout.version@ == version
            &&& layout.port_count == ports.len()
            &&& forall|i: int| 0 <= i < ports.len() ==> #[trigger] port_at(data, i) == ports[i]
            &&& layout.parts.selector_of(data) == selector
            &&& layout.parts.payload_of(data) == payload
        },
{
    lemma_auto_spec_u32_to_from_le_bytes();
    lemma_descriptors_bytes(ports);
    lemma_part_len(selector);
    lemma_part_len(payload);
    let size = mach_len(ports.len() as int, selector.len() as int, payload.len() as int) as u32;
    let head = mach_head(size, remote, ports, version);
    let data = mach_bytes(remote, ports, version, selector, payload);
    let at = MACH_PORTS_START + MACH_DESCRIPTOR_LEN * ports.len();
    assert(head.len() == at + 4);
    lemma_parts_round_trip(head, selector, payload);
    assert(data.subrange(24, 28) =~= spec_u32_to_le_bytes(ports.len() as u32));
    assert(data[at] == MAGIC && data[at + 1] == version.0 && data[at + 2] == version.1 && data[at
        + 3] == version.2);
    assert forall|i: int| 0 <= i < ports.len() implies #[trigger] port_at(data, i)
        == ports[i] by {
        assert(data.subrange(
            MACH_PORTS_START + MACH_DESCRIPTOR_LEN * i,
            MACH_PORTS_START + MACH_DESCRIPTOR_LEN * i + 4,
        ) =~= descriptors_bytes(ports).subrange(
            MACH_DESCRIPTOR_LEN * i,
            MACH_DESCRIPTOR_LEN * i + 4,
        ));
    }
    assert forall|i: int| 0 <= i < ports.len() implies #[trigger] data[MACH_PORTS_START
        + MACH_DESCRIPTOR_LEN * i + 11] == MACH_MSG_PORT_DESCRIPTOR by {
        assert(data[MACH_PORTS_START + MACH_DESCRIPTOR_LEN * i + 11] == descriptors_bytes(
            ports,
        )[MACH_DESCRIPTOR_LEN * i + 11]);
    }
}

} // verus!
