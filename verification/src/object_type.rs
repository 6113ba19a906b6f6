//! Object kind discriminants: the type byte carried in every capability
//! header, and the two dispatch enums derived from it.

use vstd::prelude::*;
use crate::error::CapError;

verus! {

/// Object type discriminant with architectural bit.
///
/// The associated constants are the raw discriminant bytes of each kind.
///
/// Bit 7 (high bit) indicates an architecture-specific type; bits 6-0 are
/// the type's index within its category:
///
/// ```text
///   Bit 7    Bits 6-0
///     0      Core type (0-127)
///     1      Arch type (0-127)
/// ```
#[derive(Clone, Copy, Debug, PartialEq, Eq, Structural)]
pub struct ObjectType(pub u8);

impl ObjectType {
    /// Bit indicating an architecture-specific capability.
    pub const ARCH_BIT: u8 = 0x80;

    // ─── Core types (0x00 - 0x7F) ───
    pub const NULL: u8 = 0;
    pub const UNTYPED: u8 = 1;
    pub const DOMAIN: u8 = 2;
    pub const KEY_TABLE: u8 = 3;
    pub const NOTIFICATION: u8 = 4;
    pub const EVENT_COUNT: u8 = 5;
    pub const ENDPOINT: u8 = 6;
    pub const TIME: u8 = 7;
    pub const BUFFER: u8 = 8;
    pub const REPLY: u8 = 9;
    /// The schedulable execution entity (split from the former Domain).
    pub const THREAD: u8 = 10;
    /// Debug-only console singleton.
    pub const DEBUG_CONSOLE: u8 = 127;

    // ─── Arch types (0x80 - 0xFF) ───
    pub const FRAME: u8 = 0x80;
    pub const PAGE_TABLE: u8 = 0x81;
    /// The protection/mapping context (formerly `VSPACE`).
    pub const ADDRESS_SPACE: u8 = 0x82;
    pub const VSPACE: u8 = 0x82;
    pub const ASID_POOL: u8 = 0x83;
    /// Reserved control point over the ASID namespace (formerly `ASID`).
    pub const ASID_CONTROL: u8 = 0x84;
    pub const ASID: u8 = 0x84;
    pub const IO_SPACE: u8 = 0x85;
    pub const IO_PORT: u8 = 0x86;
    pub const IRQ_HANDLER: u8 = 0x87;
    pub const IRQ_CONTROL: u8 = 0x88;

    /// Whether the raw byte carries the architecture bit.
    pub open spec fn spec_is_arch(self) -> bool {
        self.0 >= 0x80
    }

    /// The type index within its category (the raw byte without the
    /// architecture bit).
    pub open spec fn spec_index(self) -> u8 {
        if self.0 >= 0x80 { (self.0 - 0x80) as u8 } else { self.0 }
    }

    /// Check if this is an architecture-specific type.
    pub fn is_arch(&self) -> (r: bool)
        ensures
            r == self.spec_is_arch(),
    {
        let v = self.0;
        assert((v & 0x80u8) != 0 <==> v >= 0x80) by (bit_vector);
        (v & Self::ARCH_BIT) != 0
    }

    /// Check if this is a core type.
    pub fn is_core(&self) -> (r: bool)
        ensures
            r == !self.spec_is_arch(),
    {
        let v = self.0;
        assert((v & 0x80u8) == 0 <==> v < 0x80) by (bit_vector);
        (v & Self::ARCH_BIT) == 0
    }

    /// Get the type index within its category (strips the arch bit).
    pub fn index(&self) -> (r: u8)
        ensures
            r == self.spec_index(),
    {
        let v = self.0;
        assert(v & !0x80u8 == (if v >= 0x80 { (v - 0x80) as u8 } else { v })) by (bit_vector);
        v & !Self::ARCH_BIT
    }

    /// The raw discriminant byte.
    pub fn as_u8(&self) -> (r: u8)
        ensures
            r == self.0,
    {
        self.0
    }
}

/// Core object types, for dispatch after the architecture-bit test.
#[derive(Clone, Copy, Debug, PartialEq, Eq, Structural)]
pub enum CoreType {
    /// No capability.
    Null,
    /// Creates objects (including new key tables).
    Untyped,
    /// Protection domain.
    Domain,
    /// Capability table itself.
    KeyTable,
    /// Notification endpoint capability.
    Notification,
    /// Event count endpoint capability.
    EventCount,
    /// Endpoint capability.
    Endpoint,
    /// Time capability.
    Time,
    /// Shareable buffer capability.
    Buffer,
    /// One-shot reply capability.
    Reply,
    /// Schedulable execution entity.
    Thread,
    /// Debug-only console.
    DebugConsole,
}

/// The core kind named by a core type index, if any.
pub open spec fn core_type_of_index(index: u8) -> Option<CoreType> {
    if index == 0 { Some(CoreType::Null) }
    else if index == 1 { Some(CoreType::Untyped) }
    else if index == 2 { Some(CoreType::Domain) }
    else if index == 3 { Some(CoreType::KeyTable) }
    else if index == 4 { Some(CoreType::Notification) }
    else if index == 5 { Some(CoreType::EventCount) }
    else if index == 6 { Some(CoreType::Endpoint) }
    else if index == 7 { Some(CoreType::Time) }
    else if index == 8 { Some(CoreType::Buffer) }
    else if index == 9 { Some(CoreType::Reply) }
    else if index == 10 { Some(CoreType::Thread) }
    else if index == 127 { Some(CoreType::DebugConsole) }
    else { None }
}

impl CoreType {
    /// Classify a core object type; architecture types and unassigned core
    /// indices are rejected.
    pub fn try_from(ot: ObjectType) -> (r: Result<CoreType, CapError>)
        ensures
            ot.spec_is_arch() ==> r == Err::<CoreType, CapError>(CapError::NotCoreType),
            !ot.spec_is_arch() ==> match core_type_of_index(ot.spec_index()) {
                Some(c) => r == Ok::<CoreType, CapError>(c),
                None => r == Err::<CoreType, CapError>(CapError::UnknownCoreType(ot.spec_index())),
            },
    {
        if ot.is_arch() {
            return Err(CapError::NotCoreType);
        }
        let index = ot.index();
        match index {
            0 => Ok(CoreType::Null),
            1 => Ok(CoreType::Untyped),
            2 => Ok(CoreType::Domain),
            3 => Ok(CoreType::KeyTable),
            4 => Ok(CoreType::Notification),
            5 => Ok(CoreType::EventCount),
            6 => Ok(CoreType::Endpoint),
            7 => Ok(CoreType::Time),
            8 => Ok(CoreType::Buffer),
            9 => Ok(CoreType::Reply),
            10 => Ok(CoreType::Thread),
            127 => Ok(CoreType::DebugConsole),
            _ => Err(CapError::UnknownCoreType(index)),
        }
    }
}

/// Architecture-specific object types. The indices are the same on every
/// architecture; the concrete objects differ.
#[derive(Clone, Copy, Debug, PartialEq, Eq, Structural)]
pub enum ArchType {
    Frame,
    PageTable,
    AddressSpace,
    ASIDPool,
    ASIDControl,
    IOSpace,
    IOPort,
    IRQHandler,
    IRQControl,
}

/// The architecture kind named by an arch type index, if any.
pub open spec fn arch_type_of_index(index: u8) -> Option<ArchType> {
    if index == 0 { Some(ArchType::Frame) }
    else if index == 1 { Some(ArchType::PageTable) }
    else if index == 2 { Some(ArchType::AddressSpace) }
    else if index == 3 { Some(ArchType::ASIDPool) }
    else if index == 4 { Some(ArchType::ASIDControl) }
    else if index == 5 { Some(ArchType::IOSpace) }
    else if index == 6 { Some(ArchType::IOPort) }
    else if index == 7 { Some(ArchType::IRQHandler) }
    else if index == 8 { Some(ArchType::IRQControl) }
    else { None }
}

impl ArchType {
    /// Classify an architecture object type; core types and unassigned arch
    /// indices are rejected.
    pub fn try_from(ot: ObjectType) -> (r: Result<ArchType, CapError>)
        ensures
            !ot.spec_is_arch() ==> r == Err::<ArchType, CapError>(CapError::NotArchType),
            ot.spec_is_arch() ==> match arch_type_of_index(ot.spec_index()) {
                Some(a) => r == Ok::<ArchType, CapError>(a),
                None => r == Err::<ArchType, CapError>(CapError::UnknownArchType(ot.spec_index())),
            },
    {
        if !ot.is_arch() {
            return Err(CapError::NotArchType);
        }
        let index = ot.index();
        match index {
            0 => Ok(ArchType::Frame),
            1 => Ok(ArchType::PageTable),
            2 => Ok(ArchType::AddressSpace),
            3 => Ok(ArchType::ASIDPool),
            4 => Ok(ArchType::ASIDControl),
            5 => Ok(ArchType::IOSpace),
            6 => Ok(ArchType::IOPort),
            7 => Ok(ArchType::IRQHandler),
            8 => Ok(ArchType::IRQControl),
            _ => Err(CapError::UnknownArchType(index)),
        }
    }
}

} // verus!
