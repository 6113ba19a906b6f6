//! Capability-invocation errors and their wire status words.

use vstd::prelude::*;
use crate::key::{KeySlot, RawKey};
use crate::object_type::{ArchType, CoreType, ObjectType};

verus! {

/// Why a presented key names no capability (the holder's mistake).
#[derive(Clone, Copy, Debug, PartialEq, Eq, Structural)]
pub enum InvalidKeyReason {
    /// Incarnation zero is never issued.
    ZeroIncarnation,
    /// The guard bits above the slot index do not name this table.
    GuardMismatch,
    /// The slot index is beyond the table's capacity.
    SlotOutOfRange,
    /// The slot was never installed.
    NeverIssued,
}

/// Why a well-formed key no longer names a capability (state moved on).
#[derive(Clone, Copy, Debug, PartialEq, Eq, Structural)]
pub enum InconsistencyReason {
    /// The slot has been reinstalled since the key was minted.
    SlotIncarnationMismatch,
    /// The capability the key named was removed.
    CapabilityInvalidated,
}

/// Errors reported by capability invocations and kernel object operations.
#[derive(Clone, Copy, Debug, PartialEq, Eq, Structural)]
#[allow(inconsistent_fields)]
pub enum CapError {
    InvalidOperation,
    InsufficientRights,
    TypeMismatch { expected: ObjectType, found: ObjectType },
    InvalidKey { key: RawKey, reason: InvalidKeyReason, operand: u8 },
    InconsistentKey { key: RawKey, reason: InconsistencyReason, operand: u8 },
    InvalidSlot(KeySlot),
    SlotOccupied(KeySlot),
    NullCapability,
    PoolExhausted,
    InsufficientMemory,
    InvalidSize(usize),
    InvalidFrameSize(usize),
    InvalidObjectType(ObjectType),
    NotCoreType,
    NotArchType,
    UnknownCoreType(u8),
    UnknownArchType(u8),
    UnsupportedCoreType(CoreType),
    UnsupportedArchType(ArchType),
    InvalidDomain,
    AlreadyMapped,
    NotMapped,
    MissingIntermediate { vaddr: u64 },
    PhysicalAlias { paddr: u64 },
    InvalidPointer,
    ASIDPoolExhausted,
    NoASIDAssigned,
    KeySlotExhausted(KeySlot),
    CounterOverflow,
    Unknown,
}

/// The numeric code of an invalid-key reason.
pub open spec fn invalid_reason_code(r: InvalidKeyReason) -> u64 {
    match r {
        InvalidKeyReason::ZeroIncarnation => 0,
        InvalidKeyReason::GuardMismatch => 1,
        InvalidKeyReason::SlotOutOfRange => 2,
        InvalidKeyReason::NeverIssued => 3,
    }
}

/// The numeric code of an inconsistency reason.
pub open spec fn inconsistency_reason_code(r: InconsistencyReason) -> u64 {
    match r {
        InconsistencyReason::SlotIncarnationMismatch => 0,
        InconsistencyReason::CapabilityInvalidated => 1,
    }
}

/// The three wire words reporting `e`: status, then two detail words.
pub open spec fn spec_code(e: CapError) -> (u64, u64, u64) {
    match e {
        CapError::InvalidOperation => (1, 0, 0),
        CapError::InsufficientRights => (2, 0, 0),
        CapError::TypeMismatch { expected, found } => (3, expected.0 as u64, found.0 as u64),
        CapError::InvalidKey { key, reason, operand } =>
            (4, key.spec_to_wire(), (invalid_reason_code(reason) * 256 + operand) as u64),
        CapError::InconsistentKey { key, reason, operand } =>
            (5, key.spec_to_wire(), (inconsistency_reason_code(reason) * 256 + operand) as u64),
        CapError::InvalidSlot(s) => (6, s.0 as u64, 0),
        CapError::SlotOccupied(s) => (7, s.0 as u64, 0),
        CapError::NullCapability => (8, 0, 0),
        CapError::PoolExhausted => (9, 0, 0),
        CapError::InsufficientMemory => (10, 0, 0),
        CapError::InvalidSize(n) => (11, n as u64, 0),
        CapError::InvalidFrameSize(n) => (12, n as u64, 0),
        CapError::InvalidObjectType(t) => (13, t.0 as u64, 0),
        CapError::NotCoreType => (14, 0, 0),
        CapError::NotArchType => (15, 0, 0),
        CapError::UnknownCoreType(i) => (16, i as u64, 0),
        CapError::UnknownArchType(i) => (17, i as u64, 0),
        CapError::UnsupportedCoreType(_) => (18, 0, 0),
        CapError::UnsupportedArchType(_) => (19, 0, 0),
        CapError::InvalidDomain => (20, 0, 0),
        CapError::AlreadyMapped => (21, 0, 0),
        CapError::NotMapped => (22, 0, 0),
        CapError::MissingIntermediate { vaddr } => (23, vaddr, 0),
        CapError::PhysicalAlias { paddr } => (24, paddr, 0),
        CapError::InvalidPointer => (25, 0, 0),
        CapError::ASIDPoolExhausted => (26, 0, 0),
        CapError::NoASIDAssigned => (27, 0, 0),
        CapError::KeySlotExhausted(s) => (28, s.0 as u64, 0),
        CapError::CounterOverflow => (29, 0, 0),
        CapError::Unknown => (31, 0, 0),
    }
}

/// `e` with its key operand position replaced, for key errors.
pub open spec fn spec_with_key_operand(e: CapError, operand: u8) -> CapError {
    match e {
        CapError::InvalidKey { key, reason, .. } => CapError::InvalidKey { key, reason, operand },
        CapError::InconsistentKey { key, reason, .. } =>
            CapError::InconsistentKey { key, reason, operand },
        _ => e,
    }
}

impl CapError {
    /// The wire words reporting this error.
    pub fn code(&self) -> (r: (u64, u64, u64))
        ensures
            r == spec_code(*self),
    {
        match *self {
            CapError::InvalidOperation => (1, 0, 0),
            CapError::InsufficientRights => (2, 0, 0),
            CapError::TypeMismatch { expected, found } => (3, expected.0 as u64, found.0 as u64),
            CapError::InvalidKey { key, reason, operand } => {
                let r: u64 = match reason {
                    InvalidKeyReason::ZeroIncarnation => 0,
                    InvalidKeyReason::GuardMismatch => 1,
                    InvalidKeyReason::SlotOutOfRange => 2,
                    InvalidKeyReason::NeverIssued => 3,
                };
                (4, key.to_wire(), r * 256 + operand as u64)
            },
            CapError::InconsistentKey { key, reason, operand } => {
                let r: u64 = match reason {
                    InconsistencyReason::SlotIncarnationMismatch => 0,
                    InconsistencyReason::CapabilityInvalidated => 1,
                };
                (5, key.to_wire(), r * 256 + operand as u64)
            },
            CapError::InvalidSlot(s) => (6, s.0 as u64, 0),
            CapError::SlotOccupied(s) => (7, s.0 as u64, 0),
            CapError::NullCapability => (8, 0, 0),
            CapError::PoolExhausted => (9, 0, 0),
            CapError::InsufficientMemory => (10, 0, 0),
            CapError::InvalidSize(n) => (11, n as u64, 0),
            CapError::InvalidFrameSize(n) => (12, n as u64, 0),
            CapError::InvalidObjectType(t) => (13, t.0 as u64, 0),
            CapError::NotCoreType => (14, 0, 0),
            CapError::NotArchType => (15, 0, 0),
            CapError::UnknownCoreType(i) => (16, i as u64, 0),
            CapError::UnknownArchType(i) => (17, i as u64, 0),
            CapError::UnsupportedCoreType(_) => (18, 0, 0),
            CapError::UnsupportedArchType(_) => (19, 0, 0),
            CapError::InvalidDomain => (20, 0, 0),
            CapError::AlreadyMapped => (21, 0, 0),
            CapError::NotMapped => (22, 0, 0),
            CapError::MissingIntermediate { vaddr } => (23, vaddr, 0),
            CapError::PhysicalAlias { paddr } => (24, paddr, 0),
            CapError::InvalidPointer => (25, 0, 0),
            CapError::ASIDPoolExhausted => (26, 0, 0),
            CapError::NoASIDAssigned => (27, 0, 0),
            CapError::KeySlotExhausted(s) => (28, s.0 as u64, 0),
            CapError::CounterOverflow => (29, 0, 0),
            CapError::Unknown => (31, 0, 0),
        }
    }

    /// Record which invocation operand a key error refers to; other errors
    /// are returned unchanged.
    pub fn with_key_operand(self, operand: u8) -> (r: CapError)
        ensures
            r == spec_with_key_operand(self, operand),
    {
        match self {
            CapError::InvalidKey { key, reason, .. } => CapError::InvalidKey { key, reason, operand },
            CapError::InconsistentKey { key, reason, .. } =>
                CapError::InconsistentKey { key, reason, operand },
            _ => self,
        }
    }
}

} // verus!
