//! Capability access rights: an 8-bit permission mask.

use vstd::prelude::*;

verus! {

/// Access rights carried in a capability header.
///
/// Eight permission bits; the remaining names are per-kind reuses of the same
/// bits (a table is never executed, an event count is never mapped), so a
/// right's meaning follows the kind of the capability that carries it.
#[derive(Clone, Copy, Debug, PartialEq, Eq, Structural)]
pub struct Rights(pub u8);

/// Whether every bit of `mask` is present in `bits`.
pub open spec fn bits_contain(bits: u8, mask: u8) -> bool {
    bits & mask == mask
}

impl Rights {
    pub const READ: u8 = 0x01;
    pub const WRITE: u8 = 0x02;
    pub const EXECUTE: u8 = 0x04;
    pub const GRANT: u8 = 0x08;
    /// Authority over a mapping context (address spaces, page tables).
    pub const MAP: u8 = 0x10;
    /// Delegable lifecycle control (Thread/AddressSpace retirement).
    pub const RETIRE: u8 = 0x20;
    /// `KeyTable`: derive capabilities out of the table.
    pub const DERIVE: u8 = 0x40;
    /// `KeyTable`: install capabilities into the table.
    pub const INSTALL: u8 = 0x80;
    /// `KeyTable`: remove capabilities from the table (the execute bit).
    pub const REMOVE: u8 = 0x04;
    /// Synchronization objects: signal/advance (the write bit).
    pub const SEND: u8 = 0x02;
    /// Synchronization objects: wait/poll/read (the read bit).
    pub const RECV: u8 = 0x01;

    /// No rights.
    pub fn empty() -> (r: Rights)
        ensures
            r.0 == 0,
    {
        Rights(0)
    }

    /// Every right.
    pub fn all() -> (r: Rights)
        ensures
            r.0 == 0xff,
    {
        Rights(0xff)
    }

    /// Whether every bit of `mask` is granted.
    pub fn has(&self, mask: u8) -> (r: bool)
        ensures
            r == bits_contain(self.0, mask),
    {
        self.0 & mask == mask
    }

    /// Whether `requested` is a subset of these rights (no amplification).
    pub fn permits(&self, requested: Rights) -> (r: bool)
        ensures
            r == bits_contain(self.0, requested.0),
    {
        self.0 & requested.0 == requested.0
    }
}

} // verus!
