//! Wire status words (`x0` of a syscall return).

use vstd::prelude::*;

verus! {

pub const SUCCESS: u64 = 0;
pub const INVALID_OPERATION: u64 = 1;
pub const INSUFFICIENT_RIGHTS: u64 = 2;
pub const TYPE_MISMATCH: u64 = 3;
pub const INVALID_KEY: u64 = 4;
pub const INCONSISTENT_KEY: u64 = 5;
pub const INVALID_SLOT: u64 = 6;
pub const SLOT_OCCUPIED: u64 = 7;
pub const NULL_CAPABILITY: u64 = 8;
pub const POOL_EXHAUSTED: u64 = 9;
pub const INSUFFICIENT_MEMORY: u64 = 10;
pub const INVALID_SIZE: u64 = 11;
pub const INVALID_FRAME_SIZE: u64 = 12;
pub const INVALID_OBJECT_TYPE: u64 = 13;
pub const NOT_CORE_TYPE: u64 = 14;
pub const NOT_ARCH_TYPE: u64 = 15;
pub const UNKNOWN_CORE_TYPE: u64 = 16;
pub const UNKNOWN_ARCH_TYPE: u64 = 17;
pub const UNSUPPORTED_CORE_TYPE: u64 = 18;
pub const UNSUPPORTED_ARCH_TYPE: u64 = 19;
pub const INVALID_DOMAIN: u64 = 20;
pub const ALREADY_MAPPED: u64 = 21;
pub const NOT_MAPPED: u64 = 22;
pub const MISSING_INTERMEDIATE: u64 = 23;
pub const PHYSICAL_ALIAS: u64 = 24;
pub const INVALID_POINTER: u64 = 25;
pub const ASID_POOL_EXHAUSTED: u64 = 26;
pub const NO_ASID_ASSIGNED: u64 = 27;
pub const KEY_SLOT_EXHAUSTED: u64 = 28;
pub const COUNTER_OVERFLOW: u64 = 29;
pub const UNKNOWN: u64 = 31;

} // verus!
