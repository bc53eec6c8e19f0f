use vstd::prelude::*;

verus! {

/// The control octet of a frame: a set of flags over the two known bits.
#[derive(Clone, Copy, Debug, PartialEq, Eq, Structural)]
pub struct ControlBits {
    bits: u8,
}

/// Acknowledgment
pub const ACK_BIT: u8 = 0b00000001;

/// End of message
pub const EOM_BIT: u8 = 0b00000010;

/// Every bit that has a meaning.
pub const ALL_BITS: u8 = 0b00000011;

/// Whether an octet holds only known flags.
pub open spec fn known_bits(bits: u8) -> bool {
    bits <= ALL_BITS
}

impl ControlBits {
    /// The octet of this set.
    pub closed spec fn spec_bits(&self) -> u8 {
        self.bits
    }

    /// The acknowledgment flag alone.
    pub fn ack() -> (r: ControlBits)
        ensures
            r.spec_bits() == ACK_BIT,
    {
        ControlBits { bits: ACK_BIT }
    }

    /// The end-of-message flag alone.
    pub fn eom() -> (r: ControlBits)
        ensures
            r.spec_bits() == EOM_BIT,
    {
        ControlBits { bits: EOM_BIT }
    }

    /// The empty set.
    pub fn empty() -> (r: ControlBits)
        ensures
            r.spec_bits() == 0,
    {
        ControlBits { bits: 0 }
    }

    /// The set whose octet is `bits`, or `None` when `bits` holds an unknown flag.
    pub fn from_bits(bits: u8) -> (r: Option<ControlBits>)
        ensures
            r is Some <==> known_bits(bits),
            r matches Some(c) ==> c.spec_bits() == bits,
    {
        if bits & !ALL_BITS == 0 {
            assert(bits <= ALL_BITS) by (bit_vector)
                requires
                    bits & !3u8 == 0,
            ;
            Some(ControlBits { bits })
        } else {
            assert(bits > ALL_BITS) by (bit_vector)
                requires
                    bits & !3u8 != 0,
            ;
            None
        }
    }

    /// The octet of this set.
    pub fn bits(&self) -> (r: u8)
        ensures
            r == self.spec_bits(),
    {
        self.bits
    }

    /// Whether every flag of `other` is in this set.
    pub fn contains(&self, other: ControlBits) -> (r: bool)
        ensures
            r == (self.spec_bits() & other.spec_bits() == other.spec_bits()),
    {
        self.bits & other.bits == other.bits
    }
}

} // verus!
