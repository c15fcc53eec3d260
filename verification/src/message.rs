//! Messages as an endpoint hands them over and takes them, the payloads
//! that the bus itself understands, and messages as they travel.

use crate::errors::{Error, RecvError};
use crate::frame::{build_frame, frame_bytes, frame_fits, parsed, FrameLayout};
use crate::label::Label;
use crate::region::CountOp;
use crate::selector::{Selector, SelectorView};
use crate::util::{Align4, EndpointID};
use crate::version::{own_version, version, Version};
use vstd::prelude::*;
use vstd::slice::slice_subrange;

verus! {

/// A payload that can travel: it names its type by a sixteen-byte tag and
/// turns itself into bytes and back.
pub trait MessageBox: Sized {
    /// Reads a value of the type tagged `uuid` from `data`. Where the
    /// implementor has no type with that tag, the error is
    /// `TypeUuidNotFound`.
    fn decode(uuid: [u8; 16], data: &[u8]) -> Result<Self, Error>;

    /// The value as bytes.
    fn encode(&self) -> Result<Vec<u8>, Error>;

    /// The tag of the value's type.
    fn uuid(&self) -> [u8; 16];
}

/// The tag of `BytesMessage`, `dd95ba8e-1279-47cf-925e-83e614e79588`.
pub const BYTES_MESSAGE_UUID: [u8; 16] = [
    0xdd, 0x95, 0xba, 0x8e, 0x12, 0x79, 0x47, 0xcf, 0x92, 0x5e, 0x83, 0xe6, 0x14, 0xe7, 0x95, 0x88,
];

/// The tag of `FetchProcessHandleMessage`,
/// `fbf88372-d2cd-425a-a183-133f8f119df2`.
pub const FETCH_PROCESS_HANDLE_MESSAGE_UUID: [u8; 16] = [
    0xfb, 0xf8, 0x83, 0x72, 0xd2, 0xcd, 0x42, 0x5a, 0xa1, 0x83, 0x13, 0x3f, 0x8f, 0x11, 0x9d, 0xf2,
];

/// The tag of `ConnectMessage`, `b2c1deb3-3091-4a74-a99c-c8e8d710d4b2`.
pub const CONNECT_MESSAGE_UUID: [u8; 16] = [
    0xb2, 0xc1, 0xde, 0xb3, 0x30, 0x91, 0x4a, 0x74, 0xa9, 0x9c, 0xc8, 0xe8, 0xd7, 0x10, 0xd4, 0xb2,
];

/// The tag of `ConnectMessageAck`, `c3de9eb4-c310-4c14-9747-093d62c09998`.
pub const CONNECT_MESSAGE_ACK_UUID: [u8; 16] = [
    0xc3, 0xde, 0x9e, 0xb4, 0xc3, 0x10, 0x4c, 0x14, 0x97, 0x47, 0x09, 0x3d, 0x62, 0xc0, 0x99, 0x98,
];

/// A predefined payload: bytes, and a number that says how to read them.
#[derive(Debug, Clone, PartialEq, Eq)]
pub struct BytesMessage {
    pub format: u16,
    pub data: Vec<u8>,
}

/// Asks the controller for its process handle, for a client that may not
/// open the controller's process itself.
#[derive(Debug, Clone, PartialEq, Eq)]
pub struct FetchProcessHandleMessage {
    pub pid: u32,
    pub reply_pipe: String,
}

/// The first message of a client to the controller.
#[derive(Debug)]
pub struct ConnectMessage {
    pub version: Version,
    pub token: String,
    pub label: Label,
}

/// The controller's answer to a `ConnectMessage`.
#[derive(Debug, Copy, Clone, PartialEq, Eq)]
pub enum ConnectMessageAck {
    /// The client is admitted under the given identifier.
    Admitted(EndpointID),
    ErrVersion(Version),
    ErrToken,
}

impl ConnectMessage {
    /// The connect message of an endpoint of this library's version.
    pub fn new(token: &str, label: Label) -> (request: ConnectMessage)
        ensures
            request.version == crate::version::own_version_value(),
            request.token@ == token@,
            request.label == label,
    {
        ConnectMessage { version: version(), token: token.to_owned(), label }
    }
}

impl ConnectMessageAck {
    /// What the answer means to the client that looked the bus up: its
    /// identifier where it is admitted, else the reason why it is not.
    pub fn into_result(self) -> (joined: Result<EndpointID, Error>)
        ensures
            joined == match self {
                ConnectMessageAck::Admitted(id) => Ok::<EndpointID, Error>(id),
                ConnectMessageAck::ErrVersion(v) => Err(Error::VersionMismatch(v)),
                ConnectMessageAck::ErrToken => Err(Error::TokenMismatch),
            },
    {
        match self {
            ConnectMessageAck::Admitted(id) => Ok(id),
            ConnectMessageAck::ErrVersion(v) => Err(Error::VersionMismatch(v)),
            ConnectMessageAck::ErrToken => Err(Error::TokenMismatch),
        }
    }
}

/// What the controller does with a message, told by its payload tag.
#[derive(Debug, Copy, Clone, PartialEq, Eq, Structural)]
pub enum MessageKind {
    /// A client asks to be admitted.
    Connect,
    /// A client asks for the controller's process handle.
    FetchProcessHandle,
    /// Everything else is routed.
    Routed,
}

/// The kind of the message whose payload tag is `uuid`.
pub open spec fn kind_of(uuid: Seq<u8>) -> MessageKind {
    if uuid == CONNECT_MESSAGE_UUID@ {
        MessageKind::Connect
    } else if uuid == FETCH_PROCESS_HANDLE_MESSAGE_UUID@ {
        MessageKind::FetchProcessHandle
    } else {
        MessageKind::Routed
    }
}

/// Whether two tags are the same.
pub fn same_uuid(a: &[u8; 16], b: &[u8; 16]) -> (same: bool)
    ensures
        same == (a@ == b@),
{
    let mut i: usize = 0;
    while i < 16
        invariant
            i <= 16,
            forall|j: int| 0 <= j < i ==> a@[j] == b@[j],
        decreases 16 - i,
    {
        if a[i] != b[i] {
            return false;
        }
        i += 1;
    }
    assert(a@ =~= b@);
    true
}

/// Decodes the payload `data` of a message tagged `uuid` as the type whose
/// tag is `own`: with `decode` where the tags are the same, and not at all
/// where they are not, which gives `TypeUuidNotFound`.
pub fn decode_tagged<T, D: Fn(&[u8]) -> Result<T, Error>>(
    uuid: &[u8; 16],
    own: &[u8; 16],
    data: &[u8],
    decode: D,
) -> (value: Result<T, Error>)
    requires
        forall|bytes: &[u8]| call_requires(decode, (bytes,)),
    ensures
        uuid@ != own@ ==> value == Err::<T, Error>(Error::TypeUuidNotFound),
        uuid@ == own@ ==> call_ensures(decode, (data,), value),
{
    if same_uuid(uuid, own) {
        decode(data)
    } else {
        Err(Error::TypeUuidNotFound)
    }
}

/// The kind of the message whose payload tag is `uuid`.
pub fn classify(uuid: &[u8; 16]) -> (kind: MessageKind)
    ensures
        kind == kind_of(uuid@),
{
    if same_uuid(uuid, &CONNECT_MESSAGE_UUID) {
        MessageKind::Connect
    } else if same_uuid(uuid, &FETCH_PROCESS_HANDLE_MESSAGE_UUID) {
        MessageKind::FetchProcessHandle
    } else {
        MessageKind::Routed
    }
}

/// A message: how it is routed, what it says, and the handles and shared
/// regions that go with it. `H` is the system's handle type, `R` the type of
/// a shared region.
pub struct Message<T, H, R> {
    pub selector: Selector,
    pub payload: T,
    pub objects: Vec<H>,
    pub memory_regions: Vec<R>,
}

impl<T, H, R> Message<T, H, R> {
    /// A message with the payload `payload` and no handles, routed by
    /// `selector` with the payload tag `uuid`.
    pub fn tagged(selector: Selector, payload: T, uuid: [u8; 16]) -> (msg: Message<T, H, R>)
        ensures
            msg.selector@ == (SelectorView { uuid: uuid@, ..selector@ }),
            msg.payload == payload,
            msg.objects@.len() == 0,
            msg.memory_regions@.len() == 0,
    {
        let mut selector = selector;
        selector.set_uuid(uuid);
        Message { selector, payload, objects: Vec::new(), memory_regions: Vec::new() }
    }
}

impl<T: MessageBox, H, R> Message<T, H, R> {
    /// A message with the payload `payload` and no handles, routed by
    /// `selector`, whose payload tag becomes the one that `payload` tells.
    pub fn new(selector: Selector, payload: T) -> (msg: Message<T, H, R>)
        ensures
            exists|uuid: [u8; 16]|
                call_ensures(T::uuid, (&payload,), uuid) && msg.selector@ == (SelectorView {
                    uuid: uuid@,
                    ..selector@
                }),
            msg.payload == payload,
            msg.objects@.len() == 0,
            msg.memory_regions@.len() == 0,
    {
        let uuid = payload.uuid();
        Message::tagged(selector, payload, uuid)
    }
}

/// A message as it travels: the frame that goes over the wire, and beside it
/// the handles, first those that the sender attached and then those that
/// back the shared regions.
pub struct EncodedMessage<H, R> {
    selector: Selector,
    frame: Vec<u8>,
    payload_start: usize,
    payload_len: usize,
    objects: Vec<H>,
    memory_regions: Vec<R>,
}

/// The selector as it is when the message leaves: tagged with the payload's
/// type, and telling how many regions go with the message.
pub open spec fn stamped(selector: SelectorView, uuid: Seq<u8>, regions: int) -> SelectorView {
    SelectorView { uuid, memory_region_count: regions as u16, ..selector }
}

/// Whether `region` was handed to `count` with `op`.
pub open spec fn was_counted<R, C: Fn(&R, CountOp) -> u32>(count: C, region: R, op: CountOp)
    -> bool {
    exists|before: u32| call_ensures(count, (&region, op), before)
}

/// Whether `frame` was handed to `write`, which told `written`.
pub open spec fn was_written<W: Fn(&[u8]) -> bool>(write: W, frame: Seq<u8>, written: bool)
    -> bool {
    exists|bytes: &[u8]| bytes@ == frame && #[trigger] call_ensures(write, (bytes,), written)
}

/// The objects and the region handles in a handle list whose last
/// `region_count` handles back regions.
pub open spec fn split_at_regions<H>(handles: Seq<H>, region_count: int) -> (Seq<H>, Seq<H>) {
    (
        handles.subrange(0, handles.len() - region_count),
        handles.subrange(handles.len() - region_count, handles.len() as int),
    )
}

/// Parts the handles that came with a message into the sender's objects and
/// the handles that back regions, which are the last `region_count`. A list
/// with fewer handles than that was cut short on the way, which counts as a
/// peer that has gone.
pub fn split_handles<H>(handles: Vec<H>, region_count: u16) -> (parts: Result<
    (Vec<H>, Vec<H>),
    Error,
>)
    ensures
        handles@.len() < region_count <==> parts is Err,
        parts matches Err(e) ==> e == Error::Disconnect,
        parts matches Ok(p) ==> (p.0@, p.1@) == split_at_regions(handles@, region_count as int),
{
    let mut objects = handles;
    let count = region_count as usize;
    if objects.len() < count {
        return Err(Error::Disconnect);
    }
    let at = objects.len() - count;
    let regions = objects.split_off(at);
    Ok((objects, regions))
}

impl<H, R> EncodedMessage<H, R> {
    /// The selector of the message.
    pub closed spec fn selector_view(&self) -> SelectorView {
        self.selector@
    }

    /// The frame of the message.
    pub closed spec fn frame_view(&self) -> Seq<u8> {
        self.frame@
    }

    /// The payload's bytes, which lie in the frame; none where they would
    /// reach beyond it.
    pub closed spec fn payload_view(&self) -> Seq<u8> {
        if self.payload_start + self.payload_len <= self.frame@.len() {
            self.frame@.subrange(self.payload_start as int, self.payload_start + self.payload_len)
        } else {
            Seq::empty()
        }
    }

    /// The handles that the sender attached.
    pub closed spec fn objects_view(&self) -> Seq<H> {
        self.objects@
    }

    /// The shared regions that go with the message.
    pub closed spec fn regions_view(&self) -> Seq<R> {
        self.memory_regions@
    }

    /// Whether the payload lies within the frame, and the selector tells the
    /// number of regions.
    pub closed spec fn wf(&self) -> bool {
        &&& self.payload_start + self.payload_len <= self.frame@.len()
        &&& self.selector@.memory_region_count == self.memory_regions@.len()
    }

    /// Puts together a message that came over the wire: its frame with the
    /// layout that `parse_frame` found in it, the selector read from the
    /// frame, and the handles as `split_handles` parted them, the second
    /// part made into regions. `None` where the parts do not belong
    /// together: the layout reaches beyond the frame, or the number of
    /// regions is not the one that the selector tells.
    pub fn received(
        frame: Vec<u8>,
        layout: FrameLayout,
        selector: Selector,
        objects: Vec<H>,
        memory_regions: Vec<R>,
    ) -> (msg: Option<EncodedMessage<H, R>>)
        ensures
            msg is Some <==> layout.payload_start + layout.payload_len <= frame@.len()
                && selector@.memory_region_count == memory_regions@.len(),
            msg matches Some(m) ==> m.wf() && m.selector_view() == selector@ && m.frame_view()
                == frame@ && m.payload_view() == layout.payload_of(frame@) && m.objects_view()
                == objects@ && m.regions_view() == memory_regions@,
    {
        if layout.payload_len > frame.len() || layout.payload_start > frame.len()
            - layout.payload_len {
            return None;
        }
        if selector.memory_region_count() as usize != memory_regions.len() {
            return None;
        }
        Some(
            EncodedMessage {
                selector,
                frame,
                payload_start: layout.payload_start,
                payload_len: layout.payload_len,
                objects,
                memory_regions,
            },
        )
    }

    /// The selector of the message.
    pub fn selector(&self) -> (selector: &Selector)
        ensures
            selector@ == self.selector_view(),
    {
        &self.selector
    }

    /// The bytes to put on the wire.
    pub fn frame(&self) -> (frame: &[u8])
        ensures
            frame@ == self.frame_view(),
    {
        self.frame.as_slice()
    }

    /// The payload's bytes.
    pub fn payload_data(&self) -> (payload: &[u8])
        ensures
            payload@ == self.payload_view(),
    {
        let frame = self.frame.as_slice();
        let len = frame.len();
        if self.payload_len <= len && self.payload_start <= len - self.payload_len {
            slice_subrange(frame, self.payload_start, self.payload_start + self.payload_len)
        } else {
            let none = slice_subrange(frame, 0, 0);
            assert(none@ =~= Seq::<u8>::empty());
            none
        }
    }

    /// The handles that the sender attached.
    pub fn objects(&self) -> (objects: &Vec<H>)
        ensures
            objects@ == self.objects_view(),
    {
        &self.objects
    }

    /// The shared regions that go with the message.
    pub fn memory_regions(&self) -> (regions: &Vec<R>)
        ensures
            regions@ == self.regions_view(),
    {
        &self.memory_regions
    }

    /// The raw values of the handles that travel beside the frame, in their
    /// order on the wire: first those of the attached objects, as
    /// `object_raw` tells them, then those of the handles that back the
    /// regions, as `region_raw` tells them. So the last handles, as many as
    /// the selector counts regions, are those of the regions.
    pub fn wire_handles<X, FO: Fn(&H) -> X, FR: Fn(&R) -> X>(
        &self,
        object_raw: FO,
        region_raw: FR,
    ) -> (raw: Vec<X>)
        requires
            forall|h: &H| call_requires(object_raw, (h,)),
            forall|r: &R| call_requires(region_raw, (r,)),
        ensures
            raw@.len() == self.objects_view().len() + self.regions_view().len(),
            forall|i: int|
                0 <= i < self.objects_view().len() ==> call_ensures(
                    object_raw,
                    (&self.objects_view()[i],),
                    #[trigger] raw@[i],
                ),
            forall|i: int|
                0 <= i < self.regions_view().len() ==> call_ensures(
                    region_raw,
                    (&self.regions_view()[i],),
                    #[trigger] raw@[self.objects_view().len() + i],
                ),
            self.wf() ==> raw@.len() - self.objects_view().len()
                == self.selector_view().memory_region_count,
    {
        let mut raw: Vec<X> = Vec::new();
        let mut i: usize = 0;
        while i < self.objects.len()
            invariant
                forall|h: &H| call_requires(object_raw, (h,)),
                i <= self.objects@.len(),
                raw@.len() == i,
                forall|j: int|
                    0 <= j < i ==> call_ensures(
                        object_raw,
                        (&self.objects@[j],),
                        #[trigger] raw@[j],
                    ),
            decreases self.objects@.len() - i,
        {
            let x = object_raw(&self.objects[i]);
            raw.push(x);
            i += 1;
        }
        let mut k: usize = 0;
        while k < self.memory_regions.len()
            invariant
                forall|r: &R| call_requires(region_raw, (r,)),
                k <= self.memory_regions@.len(),
                raw@.len() == self.objects@.len() + k,
                forall|j: int|
                    0 <= j < self.objects@.len() ==> call_ensures(
                        object_raw,
                        (&self.objects@[j],),
                        #[trigger] raw@[j],
                    ),
                forall|j: int|
                    0 <= j < k ==> call_ensures(
                        region_raw,
                        (&self.memory_regions@[j],),
                        #[trigger] raw@[self.objects@.len() + j],
                    ),
            decreases self.memory_regions@.len() - k,
        {
            let x = region_raw(&self.memory_regions[k]);
            raw.push(x);
            k += 1;
        }
        raw
    }

    /// Sends the message with `write` and sees to the counts of its regions
    /// on the way: every region is counted once more with `count` before
    /// the frame is written, so that it stays alive until the receiver has
    /// taken it, and where the write fails every region is counted down
    /// again, and the failure counts as a peer that has gone.
    pub fn send_counted<C: Fn(&R, CountOp) -> u32, W: Fn(&[u8]) -> bool>(
        &self,
        count: &C,
        write: &W,
    ) -> (sent: Result<(), Error>)
        requires
            forall|r: &R, op: CountOp| call_requires(*count, (r, op)),
            forall|bytes: &[u8]| call_requires(*write, (bytes,)),
        ensures
            forall|i: int|
                0 <= i < self.regions_view().len() ==> was_counted(
                    *count,
                    #[trigger] self.regions_view()[i],
                    CountOp::Add(1),
                ),
            was_written(*write, self.frame_view(), sent is Ok),
            sent matches Err(e) ==> e == Error::Disconnect && forall|i: int|
                0 <= i < self.regions_view().len() ==> was_counted(
                    *count,
                    #[trigger] self.regions_view()[i],
                    CountOp::Sub(1),
                ),
    {
        let mut i: usize = 0;
        while i < self.memory_regions.len()
            invariant
                forall|r: &R, op: CountOp| call_requires(*count, (r, op)),
                i <= self.memory_regions@.len(),
                forall|j: int|
                    0 <= j < i ==> was_counted(
                        *count,
                        #[trigger] self.memory_regions@[j],
                        CountOp::Add(1),
                    ),
            decreases self.memory_regions@.len() - i,
        {
            let before = count(&self.memory_regions[i], CountOp::Add(1));
            assert(call_ensures(*count, (&self.memory_regions@[i as int], CountOp::Add(1)), before));
            i += 1;
        }
        let frame = self.frame.as_slice();
        let written = write(frame);
        assert(call_ensures(*write, (frame,), written));
        if written {
            return Ok(());
        }
        let mut k: usize = 0;
        while k < self.memory_regions.len()
            invariant
                forall|r: &R, op: CountOp| call_requires(*count, (r, op)),
                k <= self.memory_regions@.len(),
                forall|j: int|
                    0 <= j < k ==> was_counted(
                        *count,
                        #[trigger] self.memory_regions@[j],
                        CountOp::Sub(1),
                    ),
            decreases self.memory_regions@.len() - k,
        {
            let before = count(&self.memory_regions[k], CountOp::Sub(1));
            assert(call_ensures(*count, (&self.memory_regions@[k as int], CountOp::Sub(1)), before));
            k += 1;
        }
        Err(Error::Disconnect)
    }

    /// Takes the last attached handle off the message. In a connect message
    /// that is the handle through which the client wants its answers.
    pub fn extract_remote(&mut self) -> (reply: Option<H>)
        ensures
            old(self).objects_view().len() == 0 ==> reply is None && final(self).objects_view()
                == old(self).objects_view(),
            old(self).objects_view().len() > 0 ==> reply == Some(old(self).objects_view().last())
                && final(self).objects_view() == old(self).objects_view().drop_last(),
            final(self).selector_view() == old(self).selector_view(),
            final(self).frame_view() == old(self).frame_view(),
            final(self).payload_view() == old(self).payload_view(),
            final(self).regions_view() == old(self).regions_view(),
            final(self).wf() == old(self).wf(),
    {
        self.objects.pop()
    }

    /// What the receiver gets where the payload's decoder gave `decoded`:
    /// the message with its handles where a payload came out, the error
    /// where the bytes could not be read, and nothing, so that the receiver
    /// waits for the next message, where the decoder has no use for the
    /// message.
    pub closed spec fn delivered<T>(self, decoded: Result<T, Error>) -> Result<
        Option<Message<T, H, R>>,
        RecvError,
    > {
        match decoded {
            Ok(payload) => Ok(
                Some(
                    Message {
                        selector: self.selector,
                        payload,
                        objects: self.objects,
                        memory_regions: self.memory_regions,
                    },
                ),
            ),
            Err(Error::Decode(e)) => Err(RecvError::Decode(e)),
            Err(_) => Ok(None),
        }
    }

    /// What `delivered` is for each thing that a decoder can give: for a
    /// payload, the message with that payload and with the selector, the
    /// objects and the regions of the encoded message; for bytes that could
    /// not be read, that error; for any other error, nothing.
    pub proof fn lemma_delivered<T>(self, decoded: Result<T, Error>)
        ensures
            match decoded {
                Ok(payload) => self.delivered(decoded) matches Ok(Some(m)) && m.payload == payload
                    && m.selector@ == self.selector_view() && m.objects@ == self.objects_view()
                    && m.memory_regions@ == self.regions_view(),
                Err(Error::Decode(e)) => self.delivered(decoded) == Err::<
                    Option<Message<T, H, R>>,
                    RecvError,
                >(RecvError::Decode(e)),
                Err(_) => self.delivered(decoded) == Ok::<Option<Message<T, H, R>>, RecvError>(None),
            },
    {
    }

    /// What the receiver gets where the payload's decoder gave `decoded`:
    /// the message with its handles where a payload came out, the error
    /// where the bytes could not be read, and nothing, so that the receiver
    /// waits for the next message, where the decoder has no use for the
    /// message.
    pub fn deliver<T>(self, decoded: Result<T, Error>) -> (msg: Result<
        Option<Message<T, H, R>>,
        RecvError,
    >)
        ensures
            msg == self.delivered(decoded),
            match decoded {
                Ok(payload) => msg matches Ok(Some(m)) && m.payload == payload && m.selector@
                    == self.selector_view() && m.objects@ == self.objects_view()
                    && m.memory_regions@ == self.regions_view(),
                Err(Error::Decode(e)) => msg matches Err(RecvError::Decode(f)) && f == e,
                Err(_) => msg matches Ok(None),
            },
    {
        match decoded {
            Ok(payload) => Ok(
                Some(
                    Message {
                        selector: self.selector,
                        payload,
                        objects: self.objects,
                        memory_regions: self.memory_regions,
                    },
                ),
            ),
            Err(Error::Decode(e)) => Err(RecvError::Decode(e)),
            Err(_) => Ok(None),
        }
    }

    /// Whether `msg` is what an endpoint with the label `own_label` can get
    /// of the message: nothing where the predicate of the message does not
    /// hold of the label, else what `delivered` makes of what the decoder of
    /// `T` gives for the payload tag and the payload of the message.
    pub open spec fn is_decoded<T: MessageBox>(
        self,
        own_label: Option<&Label>,
        msg: Result<Option<Message<T, H, R>>, RecvError>,
    ) -> bool {
        if own_label matches Some(label) && !self.selector_view().label_op.holds(label@) {
            msg matches Ok(None)
        } else {
            exists|uuid: [u8; 16], payload: &[u8], decoded: Result<T, Error>|
                uuid@ == self.selector_view().uuid && payload@ == self.payload_view()
                    && #[trigger] call_ensures(T::decode, (uuid, payload), decoded) && msg
                    == self.delivered(decoded)
        }
    }

    /// Decodes the message for the endpoint whose label is `own_label`. A
    /// message whose predicate does not hold of that label was not meant for
    /// the endpoint and gives nothing, and so does one whose payload type
    /// the receiver does not know. A controller, to which only messages for
    /// its own label are handed, passes no label.
    pub fn into_message<T: MessageBox>(self, own_label: Option<&Label>) -> (msg: Result<
        Option<Message<T, H, R>>,
        RecvError,
    >)
        ensures
            self.is_decoded(own_label, msg),
            msg matches Ok(Some(m)) ==> m.selector@ == self.selector_view() && m.objects@
                == self.objects_view() && m.memory_regions@ == self.regions_view(),
            msg matches Err(e) ==> e is Decode,
    {
        if let Some(label) = own_label {
            if !self.selector.label_op().validate(label) {
                return Ok(None);
            }
        }
        let uuid = self.selector.uuid();
        let payload = self.payload_data();
        let decoded = T::decode(uuid, payload);
        self.deliver(decoded)
    }
}

impl<H, R> EncodedMessage<H, R> {
    /// Frames a message that is ready to travel: its selector, which tells
    /// the payload's type and the number of regions, the bytes of that
    /// selector and of the payload, and the handles. A selector or payload
    /// that is too long for a frame, or a selector that tells another number
    /// of regions than there are, gives `FrameTooLarge`.
    pub fn framed(
        selector: Selector,
        selector_bytes: &[u8],
        payload_bytes: &[u8],
        objects: Vec<H>,
        memory_regions: Vec<R>,
    ) -> (msg: Result<EncodedMessage<H, R>, Error>)
        ensures
            msg is Ok <==> frame_fits(selector_bytes@.len() as int, payload_bytes@.len() as int)
                && selector@.memory_region_count == memory_regions@.len(),
            msg matches Err(e) ==> e == Error::FrameTooLarge,
            msg matches Ok(m) ==> {
                &&& m.wf()
                &&& m.selector_view() == selector@
                &&& m.frame_view() == frame_bytes(own_version(), selector_bytes@, payload_bytes@)
                &&& m.payload_view() == payload_bytes@
                &&& m.objects_view() == objects@
                &&& m.regions_view() == memory_regions@
                &&& parsed(m.frame_view(), own_version()) matches Ok(layout)
                    && layout.selector_of(m.frame_view()) == selector_bytes@ && layout.payload_of(
                    m.frame_view(),
                ) == payload_bytes@ && layout.version@ == own_version()
            },
    {
        if selector.memory_region_count() as usize != memory_regions.len() {
            return Err(Error::FrameTooLarge);
        }
        let frame = match build_frame(version(), selector_bytes, payload_bytes) {
            Some(frame) => frame,
            None => {
                return Err(Error::FrameTooLarge);
            },
        };
        proof {
            crate::frame::lemma_frame_round_trip(
                own_version(),
                own_version(),
                selector_bytes@,
                payload_bytes@,
            );
            crate::frame::lemma_frame_len(own_version(), selector_bytes@, payload_bytes@);
        }
        let payload_len = payload_bytes.len();
        let payload_start = frame.len() - payload_len.align4();
        Ok(
            EncodedMessage {
                selector,
                frame,
                payload_start,
                payload_len,
                objects,
                memory_regions,
            },
        )
    }
}

/// Makes a region of each handle, in the order of the handles.
fn adopt_all<H, R, A: Fn(H) -> R>(handles: Vec<H>, adopt: &A) -> (regions: Vec<R>)
    requires
        forall|h: H| call_requires(*adopt, (h,)),
    ensures
        regions@.len() == handles@.len(),
        forall|i: int|
            0 <= i < regions@.len() ==> call_ensures(
                *adopt,
                (handles@[i],),
                #[trigger] regions@[i],
            ),
{
    let ghost all = handles@;
    let mut rest = handles;
    let mut turned: Vec<H> = Vec::new();
    while rest.len() > 0
        invariant
            rest@.len() + turned@.len() == all.len(),
            rest@ == all.take(rest@.len() as int),
            forall|i: int|
                0 <= i < turned@.len() ==> #[trigger] turned@[i] == all[all.len() - 1 - i],
        decreases rest@.len(),
    {
        let h = rest.pop().unwrap();
        turned.push(h);
    }
    let mut regions: Vec<R> = Vec::new();
    while turned.len() > 0
        invariant
            forall|h: H| call_requires(*adopt, (h,)),
            regions@.len() + turned@.len() == all.len(),
            forall|i: int|
                0 <= i < turned@.len() ==> #[trigger] turned@[i] == all[all.len() - 1 - i],
            forall|i: int|
                0 <= i < regions@.len() ==> call_ensures(*adopt, (all[i],), #[trigger] regions@[i]),
        decreases turned@.len(),
    {
        let h = turned.pop().unwrap();
        let region = adopt(h);
        regions.push(region);
    }
    regions
}

/// Whether `regions` are what `adopt` can make of the handles `backing`,
/// one of each, in their order.
pub open spec fn adopted<H, R, A: Fn(H) -> R>(backing: Seq<H>, adopt: A, regions: Seq<R>) -> bool {
    &&& regions.len() == backing.len()
    &&& forall|i: int|
        0 <= i < regions.len() ==> call_ensures(adopt, (backing[i],), #[trigger] regions[i])
}

/// Whether `msg` is the message that was read with the selector `selector`
/// from the frame `frame` with the layout `layout`, and with the handles
/// `handles` beside it: it has the frame, the selector and the payload of the
/// frame, the handles but the last are its objects, and the last, as many as
/// the selector counts regions, were made into its regions by `adopt`.
pub open spec fn is_read<H, R, A: Fn(H) -> R>(
    frame: Seq<u8>,
    layout: FrameLayout,
    selector: Selector,
    handles: Seq<H>,
    adopt: A,
    msg: EncodedMessage<H, R>,
) -> bool {
    let parts = split_at_regions(handles, selector@.memory_region_count as int);
    &&& msg.wf()
    &&& msg.frame_view() == frame
    &&& msg.selector_view() == selector@
    &&& msg.payload_view() == layout.payload_of(frame)
    &&& msg.objects_view() == parts.0
    &&& adopted(parts.1, adopt, msg.regions_view())
}

/// Whether `msg` is what can be made of the bytes `frame` that came over
/// the wire with the handles `handles` beside them.
///
/// What is wrong with the frame is reported as `parsed` tells it. Else the
/// selector is read from its bytes by `decode_selector`, whose error is
/// reported where it fails. A selector that counts more regions than there
/// are handles shows that the handles were cut short on the way, which
/// counts as a peer that has gone. Else the message is put together.
pub open spec fn is_from_wire<
    H,
    R,
    D: Fn(&[u8]) -> Result<Selector, Error>,
    A: Fn(H) -> R,
>(
    frame: Seq<u8>,
    handles: Seq<H>,
    decode_selector: D,
    adopt: A,
    msg: Result<EncodedMessage<H, R>, Error>,
) -> bool {
    match parsed(frame, own_version()) {
        Err(e) => msg == Err::<EncodedMessage<H, R>, Error>(e),
        Ok(layout) => exists|bytes: &[u8], decoded: Result<Selector, Error>|
            bytes@ == layout.selector_of(frame) && #[trigger] call_ensures(
                decode_selector,
                (bytes,),
                decoded,
            ) && match decoded {
                Err(e) => msg == Err::<EncodedMessage<H, R>, Error>(e),
                Ok(selector) => if handles.len() < selector@.memory_region_count {
                    msg == Err::<EncodedMessage<H, R>, Error>(Error::Disconnect)
                } else {
                    msg matches Ok(m) && is_read(frame, layout, selector, handles, adopt, m)
                },
            },
    }
}

impl<H, R> EncodedMessage<H, R> {
    /// Puts together the message that came over the wire as the bytes
    /// `frame` with the handles `handles` beside them.
    ///
    /// The frame is taken apart, its selector read by `decode_selector`, the
    /// handles parted into the sender's objects and the handles that back
    /// regions, and each of these made into a region by `adopt`, in their
    /// order. A frame of another version gives `VersionMismatch`; a frame or
    /// a handle list that was cut short gives `Disconnect`; a selector that
    /// cannot be read gives the error of `decode_selector`.
    pub fn from_wire<D: Fn(&[u8]) -> Result<Selector, Error>, A: Fn(H) -> R>(
        frame: Vec<u8>,
        handles: Vec<H>,
        decode_selector: D,
        adopt: A,
    ) -> (msg: Result<EncodedMessage<H, R>, Error>)
        requires
            forall|bytes: &[u8]| call_requires(decode_selector, (bytes,)),
            forall|h: H| call_requires(adopt, (h,)),
        ensures
            is_from_wire(frame@, handles@, decode_selector, adopt, msg),
    {
        let layout = match crate::frame::parse_frame(frame.as_slice()) {
            Ok(layout) => layout,
            Err(e) => {
                return Err(e);
            },
        };
        let bytes = slice_subrange(
            frame.as_slice(),
            layout.selector_start,
            layout.selector_start + layout.selector_len,
        );
        let decoded = decode_selector(bytes);
        let selector = match decoded {
            Ok(selector) => selector,
            Err(e) => {
                return Err(e);
            },
        };
        let (objects, backing) = match split_handles(handles, selector.memory_region_count()) {
            Ok(parts) => parts,
            Err(e) => {
                return Err(e);
            },
        };
        let memory_regions = adopt_all(backing, &adopt);
        match EncodedMessage::received(frame, layout, selector, objects, memory_regions) {
            Some(msg) => {
                Ok(msg)
            },
            None => {
                proof {
                    assert(false);
                }
                vstd::pervasive::unreached()
            },
        }
    }
}

impl<T: MessageBox, H, R> Message<T, H, R> {
    /// Whether `msg` is what can come of making the message ready to
    /// travel with the selector in the bytes `selector_bytes`, where the
    /// payload told the tag `uuid` and its encoder gave `encoded`.
    ///
    /// The encoder's error is reported where it fails, and `FrameTooLarge`
    /// where selector and payload are too long for a frame. Else the message
    /// has the selector of the message, tagged with `uuid` and telling the
    /// number of regions, the frame of this library's version with the bytes
    /// of the selector and the payload, and the handles of the message.
    pub open spec fn is_encoded(
        self,
        uuid: [u8; 16],
        selector_bytes: Seq<u8>,
        encoded: Result<Vec<u8>, Error>,
        msg: Result<EncodedMessage<H, R>, Error>,
    ) -> bool {
        match encoded {
            Err(e) => msg == Err::<EncodedMessage<H, R>, Error>(e),
            Ok(payload) => if !frame_fits(selector_bytes.len() as int, payload@.len() as int) {
                msg == Err::<EncodedMessage<H, R>, Error>(Error::FrameTooLarge)
            } else {
                msg matches Ok(m) && {
                    &&& m.wf()
                    &&& m.selector_view() == stamped(
                        self.selector@,
                        uuid@,
                        self.memory_regions@.len() as int,
                    )
                    &&& m.frame_view() == frame_bytes(own_version(), selector_bytes, payload@)
                    &&& m.payload_view() == payload@
                    &&& m.objects_view() == self.objects@
                    &&& m.regions_view() == self.memory_regions@
                }
            },
        }
    }

    /// Whether making the message ready to travel can go like this: the
    /// payload tells the tag `uuid`; the selector, tagged with it and told
    /// the number of regions, is `s`, of which `encode_selector` makes the
    /// bytes `selector_bytes`; the encoder of the payload gives `encoded`;
    /// and `msg` is what `is_encoded` says comes of these.
    pub open spec fn went_out<F: Fn(&Selector) -> Vec<u8>>(
        self,
        encode_selector: F,
        uuid: [u8; 16],
        s: Selector,
        selector_bytes: Vec<u8>,
        encoded: Result<Vec<u8>, Error>,
        msg: Result<EncodedMessage<H, R>, Error>,
    ) -> bool {
        &&& call_ensures(T::uuid, (&self.payload,), uuid)
        &&& s@ == stamped(self.selector@, uuid@, self.memory_regions@.len() as int)
        &&& call_ensures(encode_selector, (&s,), selector_bytes)
        &&& call_ensures(T::encode, (&self.payload,), encoded)
        &&& self.is_encoded(uuid, selector_bytes@, encoded, msg)
    }

    /// Makes the message ready to travel. The selector is tagged with the
    /// payload's type and told the number of regions, then serialized by
    /// `encode_selector`, and framed together with the encoded payload.
    ///
    /// A message with more regions than sixteen bits can count, or with a
    /// selector or payload too long for a frame, gives `FrameTooLarge`; a
    /// payload that cannot be encoded gives the encoder's error.
    pub fn into_encoded<F: Fn(&Selector) -> Vec<u8>>(self, encode_selector: F) -> (msg: Result<
        EncodedMessage<H, R>,
        Error,
    >)
        requires
            forall|s: &Selector| call_requires(encode_selector, (s,)),
        ensures
            self.memory_regions@.len() > u16::MAX ==> msg == Err::<EncodedMessage<H, R>, Error>(
                Error::FrameTooLarge,
            ),
            self.memory_regions@.len() <= u16::MAX ==> exists|
                uuid: [u8; 16],
                s: Selector,
                selector_bytes: Vec<u8>,
                encoded: Result<Vec<u8>, Error>,
            | #[trigger]
                self.went_out(encode_selector, uuid, s, selector_bytes, encoded, msg),
    {
        let Message { selector, payload, objects, memory_regions } = self;
        let mut selector = selector;
        if memory_regions.len() > u16::MAX as usize {
            return Err(Error::FrameTooLarge);
        }
        let uuid = payload.uuid();
        selector.set_uuid(uuid);
        selector.set_memory_region_count(memory_regions.len() as u16);
        let ghost stamped_selector = selector;
        let selector_bytes = encode_selector(&selector);
        let encoded = payload.encode();
        let msg = match encoded {
            Ok(payload_bytes) => EncodedMessage::framed(
                selector,
                selector_bytes.as_slice(),
                payload_bytes.as_slice(),
                objects,
                memory_regions,
            ),
            Err(e) => Err(e),
        };
        proof {
            assert(self.went_out(
                encode_selector,
                uuid,
                stamped_selector,
                selector_bytes,
                encoded,
                msg,
            ));
        }
        msg
    }
}

} // verus!
