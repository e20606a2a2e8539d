use vstd::prelude::*;

verus! {

/// The kind of a shred: a data fragment or an erasure-coding fragment.
#[derive(Clone, Copy, PartialEq, Eq, Structural, Debug, Hash)]
pub enum ShredKind {
    Data,
    Code,
}

/// Identity of a logical shred position. Two shreds with the same id but
/// differing payloads are distinct encodings of the same position, which is
/// the cluster's duplicate-block indicator.
#[derive(Clone, Copy, PartialEq, Eq, Structural, Debug, Hash)]
pub struct ShredId {
    pub slot: u64,
    pub index: u32,
    pub kind: ShredKind,
}

/// A signature-verified block fragment eligible for retransmission. The
/// payload is the wire form and is forwarded verbatim.
#[derive(Clone, Debug)]
pub struct Shred {
    pub slot: u64,
    pub index: u32,
    pub kind: ShredKind,
    pub payload: Vec<u8>,
}

impl Shred {
    pub open spec fn spec_id(self) -> ShredId {
        ShredId { slot: self.slot, index: self.index, kind: self.kind }
    }

    pub fn id(&self) -> (r: ShredId)
        ensures
            r == self.spec_id(),
    {
        ShredId { slot: self.slot, index: self.index, kind: self.kind }
    }
}

/// Numeric tag under which a shred kind enters the id filter key.
pub open spec fn spec_kind_code(kind: ShredKind) -> u8 {
    match kind {
        ShredKind::Data => 0u8,
        ShredKind::Code => 1u8,
    }
}

pub fn kind_code(kind: ShredKind) -> (r: u8)
    ensures
        r == spec_kind_code(kind),
{
    match kind {
        ShredKind::Data => 0u8,
        ShredKind::Code => 1u8,
    }
}

} // verus!
