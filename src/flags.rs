//! Bit-exact views of the doorbell status byte and of the extended
//! interrupt status register.
use vstd::prelude::*;

verus! {

/// Bit 0 of the doorbell status byte: an NMI is pending.
pub open spec fn nmi_pending_bit(b: u8) -> bool {
    b & 0x01 != 0
}

/// Bit 1 of the doorbell status byte: a machine check is pending.
pub open spec fn mc_pending_bit(b: u8) -> bool {
    b & 0x02 != 0
}

/// Bit 7 of the doorbell status byte: the hypervisor will not signal again
/// until the guest has processed the page.
pub open spec fn no_further_signal_bit(b: u8) -> bool {
    b & 0x80 != 0
}

/// Bits 2 to 6 of the doorbell status byte, reserved.
pub open spec fn reserved_bits(b: u8) -> u8 {
    b & 0x7c
}

/// The doorbell status byte: bit 0 `nmi_pending`, bit 1 `mc_pending`,
/// bits 2 to 6 reserved, bit 7 `no_further_signal`.
#[derive(Clone, Copy, Debug, PartialEq, Eq)]
pub struct HVDoorbellFlags(u8);

impl View for HVDoorbellFlags {
    type V = u8;

    closed spec fn view(&self) -> u8 {
        self.0
    }
}

impl HVDoorbellFlags {
    /// All bits clear.
    pub fn new() -> (r: Self)
        ensures
            r@ == 0,
    {
        HVDoorbellFlags(0)
    }

    pub fn from_bits(bits: u8) -> (r: Self)
        ensures
            r@ == bits,
    {
        HVDoorbellFlags(bits)
    }

    pub fn into_bits(self) -> (r: u8)
        ensures
            r == self@,
    {
        self.0
    }

    pub fn nmi_pending(&self) -> (r: bool)
        ensures
            r == nmi_pending_bit(self@),
    {
        self.0 & 0x01 != 0
    }

    pub fn mc_pending(&self) -> (r: bool)
        ensures
            r == mc_pending_bit(self@),
    {
        self.0 & 0x02 != 0
    }

    pub fn no_further_signal(&self) -> (r: bool)
        ensures
            r == no_further_signal_bit(self@),
    {
        self.0 & 0x80 != 0
    }

    /// Sets or clears bit 0, keeping every other bit.
    pub fn with_nmi_pending(self, v: bool) -> (r: Self)
        ensures
            nmi_pending_bit(r@) == v,
            mc_pending_bit(r@) == mc_pending_bit(self@),
            no_further_signal_bit(r@) == no_further_signal_bit(self@),
            reserved_bits(r@) == reserved_bits(self@),
    {
        let b = self.0;
        let n: u8 = if v { b | 0x01 } else { b & 0xfe };
        proof {
            assert((b | 0x01) & 0x01 != 0 && (b | 0x01) & 0x02 == b & 0x02
                && (b | 0x01) & 0x80 == b & 0x80 && (b | 0x01) & 0x7c == b & 0x7c) by (bit_vector);
            assert((b & 0xfe) & 0x01 == 0 && (b & 0xfe) & 0x02 == b & 0x02
                && (b & 0xfe) & 0x80 == b & 0x80 && (b & 0xfe) & 0x7c == b & 0x7c) by (bit_vector);
        }
        HVDoorbellFlags(n)
    }

    /// Sets or clears bit 1, keeping every other bit.
    pub fn with_mc_pending(self, v: bool) -> (r: Self)
        ensures
            mc_pending_bit(r@) == v,
            nmi_pending_bit(r@) == nmi_pending_bit(self@),
            no_further_signal_bit(r@) == no_further_signal_bit(self@),
            reserved_bits(r@) == reserved_bits(self@),
    {
        let b = self.0;
        let n: u8 = if v { b | 0x02 } else { b & 0xfd };
        proof {
            assert((b | 0x02) & 0x02 != 0 && (b | 0x02) & 0x01 == b & 0x01
                && (b | 0x02) & 0x80 == b & 0x80 && (b | 0x02) & 0x7c == b & 0x7c) by (bit_vector);
            assert((b & 0xfd) & 0x02 == 0 && (b & 0xfd) & 0x01 == b & 0x01
                && (b & 0xfd) & 0x80 == b & 0x80 && (b & 0xfd) & 0x7c == b & 0x7c) by (bit_vector);
        }
        HVDoorbellFlags(n)
    }

    /// Sets or clears bit 7, keeping every other bit.
    pub fn with_no_further_signal(self, v: bool) -> (r: Self)
        ensures
            no_further_signal_bit(r@) == v,
            nmi_pending_bit(r@) == nmi_pending_bit(self@),
            mc_pending_bit(r@) == mc_pending_bit(self@),
            reserved_bits(r@) == reserved_bits(self@),
    {
        let b = self.0;
        let n: u8 = if v { b | 0x80 } else { b & 0x7f };
        proof {
            assert((b | 0x80) & 0x80 != 0 && (b | 0x80) & 0x01 == b & 0x01
                && (b | 0x80) & 0x02 == b & 0x02 && (b | 0x80) & 0x7c == b & 0x7c) by (bit_vector);
            assert((b & 0x7f) & 0x80 == 0 && (b & 0x7f) & 0x01 == b & 0x01
                && (b & 0x7f) & 0x02 == b & 0x02 && (b & 0x7f) & 0x7c == b & 0x7c) by (bit_vector);
        }
        HVDoorbellFlags(n)
    }
}

/// The status register of one extended interrupt block: bits 0 to 7
/// `pending_vector`, bit 8 `nmi_pending`, bit 9 `mc_pending`, bit 10
/// `level_sensitive`, bit 14 `multiple_vectors`, bit 27 `ipi_requested`,
/// bit 31 `vector_31`; the other bits are reserved.
#[derive(Clone, Copy, Debug, PartialEq, Eq)]
pub struct HVExtIntStatus(u32);

impl View for HVExtIntStatus {
    type V = u32;

    closed spec fn view(&self) -> u32 {
        self.0
    }
}

/// Whether bit `i` of `w` is set.
pub open spec fn status_bit(w: u32, i: u32) -> bool {
    (w >> i) & 1 == 1
}

impl HVExtIntStatus {
    /// All bits clear.
    pub fn new() -> (r: Self)
        ensures
            r@ == 0,
    {
        HVExtIntStatus(0)
    }

    pub fn from_bits(bits: u32) -> (r: Self)
        ensures
            r@ == bits,
    {
        HVExtIntStatus(bits)
    }

    pub fn into_bits(self) -> (r: u32)
        ensures
            r == self@,
    {
        self.0
    }

    fn bit(&self, i: u32) -> (r: bool)
        requires
            i < 32,
        ensures
            r == status_bit(self@, i),
    {
        (self.0 >> i) & 1 == 1
    }

    pub fn pending_vector(&self) -> (r: u8)
        ensures
            r as u32 == self@ & 0xff,
    {
        let w = self.0;
        proof {
            assert(w & 0xff < 256) by (bit_vector);
        }
        (w & 0xff) as u8
    }

    pub fn nmi_pending(&self) -> (r: bool)
        ensures
            r == status_bit(self@, 8),
    {
        self.bit(8)
    }

    pub fn mc_pending(&self) -> (r: bool)
        ensures
            r == status_bit(self@, 9),
    {
        self.bit(9)
    }

    pub fn level_sensitive(&self) -> (r: bool)
        ensures
            r == status_bit(self@, 10),
    {
        self.bit(10)
    }

    pub fn multiple_vectors(&self) -> (r: bool)
        ensures
            r == status_bit(self@, 14),
    {
        self.bit(14)
    }

    pub fn ipi_requested(&self) -> (r: bool)
        ensures
            r == status_bit(self@, 27),
    {
        self.bit(27)
    }

    pub fn vector_31(&self) -> (r: bool)
        ensures
            r == status_bit(self@, 31),
    {
        self.bit(31)
    }
}

} // verus!
