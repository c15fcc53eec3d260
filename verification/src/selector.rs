//! The routing descriptor that every message carries.

use crate::label::{LabelOp, OpTree};
use crate::time::TimeSpan;
use vstd::prelude::*;

verus! {

/// To how many endpoints a message goes.
#[derive(Debug, Copy, Clone, PartialEq, Eq, Structural)]
pub enum SelectorMode {
    /// The message is consumed by one endpoint only.
    Unicast,
    /// The message is consumed by every endpoint that it selects.
    Multicast,
}

/// Describes how a message is routed.
#[derive(Debug)]
pub struct Selector {
    label_op: LabelOp,
    mode: SelectorMode,
    uuid: [u8; 16],
    memory_region_count: u16,
    ttl: TimeSpan,
}

/// A selector as plain values.
pub struct SelectorView {
    /// The predicate that the label of a recipient satisfies.
    pub label_op: OpTree,
    pub mode: SelectorMode,
    /// The tag of the payload's type, sixteen bytes.
    pub uuid: Seq<u8>,
    /// How many handles at the end of the message's handle list back shared
    /// regions.
    pub memory_region_count: u16,
    /// How long the message is kept where no endpoint can take it yet, in
    /// nanoseconds.
    pub ttl: nat,
}

impl View for Selector {
    type V = SelectorView;

    closed spec fn view(&self) -> SelectorView {
        SelectorView {
            label_op: self.label_op@,
            mode: self.mode,
            uuid: self.uuid@,
            memory_region_count: self.memory_region_count,
            ttl: self.ttl@,
        }
    }
}

/// Sixteen zero bytes: the payload tag of a selector that belongs to no
/// message yet.
pub open spec fn nil_uuid() -> Seq<u8> {
    Seq::new(16, |i: int| 0u8)
}

impl Selector {
    /// The payload tag of every selector has sixteen bytes.
    pub proof fn lemma_uuid_len(&self)
        ensures
            self@.uuid.len() == 16,
    {
    }

    /// A selector for one recipient among the endpoints that `label_op`
    /// holds of, with no payload tag, no regions and no time to live.
    pub fn unicast(label_op: LabelOp) -> (selector: Selector)
        ensures
            selector@ == (SelectorView {
                label_op: label_op@,
                mode: SelectorMode::Unicast,
                uuid: nil_uuid(),
                memory_region_count: 0,
                ttl: 0,
            }),
    {
        let uuid = [0u8; 16];
        assert(uuid@ =~= nil_uuid());
        Selector {
            label_op,
            mode: SelectorMode::Unicast,
            uuid,
            memory_region_count: 0,
            ttl: TimeSpan::zero(),
        }
    }

    /// A selector for all the endpoints that `label_op` holds of, with no
    /// payload tag, no regions and no time to live.
    pub fn multicast(label_op: LabelOp) -> (selector: Selector)
        ensures
            selector@ == (SelectorView {
                label_op: label_op@,
                mode: SelectorMode::Multicast,
                uuid: nil_uuid(),
                memory_region_count: 0,
                ttl: 0,
            }),
    {
        let uuid = [0u8; 16];
        assert(uuid@ =~= nil_uuid());
        Selector {
            label_op,
            mode: SelectorMode::Multicast,
            uuid,
            memory_region_count: 0,
            ttl: TimeSpan::zero(),
        }
    }

    /// The selector with the given parts, as a decoder puts it together.
    pub fn from_parts(
        label_op: LabelOp,
        mode: SelectorMode,
        uuid: [u8; 16],
        memory_region_count: u16,
        ttl: TimeSpan,
    ) -> (selector: Selector)
        ensures
            selector@ == (SelectorView {
                label_op: label_op@,
                mode,
                uuid: uuid@,
                memory_region_count,
                ttl: ttl@,
            }),
    {
        Selector { label_op, mode, uuid, memory_region_count, ttl }
    }

    /// The predicate that the label of a recipient satisfies.
    pub fn label_op(&self) -> (op: &LabelOp)
        ensures
            op@ == self@.label_op,
    {
        &self.label_op
    }

    pub fn mode(&self) -> (mode: SelectorMode)
        ensures
            mode == self@.mode,
    {
        self.mode
    }

    /// How long the message is kept where no endpoint can take it yet.
    pub fn ttl(&self) -> (ttl: TimeSpan)
        ensures
            ttl@ == self@.ttl,
    {
        self.ttl
    }

    /// Sets how long the message is kept where no endpoint can take it yet.
    pub fn set_ttl(&mut self, ttl: TimeSpan)
        ensures
            final(self)@ == (SelectorView { ttl: ttl@, ..old(self)@ }),
    {
        self.ttl = ttl;
    }

    /// The tag of the payload's type.
    pub fn uuid(&self) -> (uuid: [u8; 16])
        ensures
            uuid@ == self@.uuid,
    {
        self.uuid
    }

    /// How many handles at the end of the message's handle list back shared
    /// regions.
    pub fn memory_region_count(&self) -> (count: u16)
        ensures
            count == self@.memory_region_count,
    {
        self.memory_region_count
    }

    /// Sets the tag of the payload's type.
    pub fn set_uuid(&mut self, uuid: [u8; 16])
        ensures
            final(self)@ == (SelectorView { uuid: uuid@, ..old(self)@ }),
    {
        self.uuid = uuid;
    }

    /// Sets the number of handles that back shared regions.
    pub fn set_memory_region_count(&mut self, count: u16)
        ensures
            final(self)@ == (SelectorView { memory_region_count: count, ..old(self)@ }),
    {
        self.memory_region_count = count;
    }
}

impl Clone for Selector {
    fn clone(&self) -> (copy: Selector)
        ensures
            copy@ == self@,
    {
        Selector {
            label_op: self.label_op.clone(),
            mode: self.mode,
            uuid: self.uuid,
            memory_region_count: self.memory_region_count,
            ttl: self.ttl,
        }
    }
}

} // verus!
