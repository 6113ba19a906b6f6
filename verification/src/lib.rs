//! Verified core of the Vesper nucleus: capability tables, typed object
//! pools, blocking-invocation records, synchronization objects and the
//! AArch64 translation-table mechanics.

pub mod access;
pub mod arch;
pub mod arch_ops;
pub mod bitmap;
pub mod completion;
pub mod dispatch;
pub mod domain;
pub mod entry;
pub mod error;
pub mod event_count;
pub mod invoke;
pub mod key;
pub mod key_entry;
pub mod key_table;
pub mod notification;
pub mod nucleus;
pub mod nucleus_object;
pub mod object_pool;
pub mod object_type;
pub mod page_table;
pub mod retype;
pub mod rights;
pub mod ring;
pub mod sched;
pub mod store;
pub mod sync_ops;
pub mod syscall_status;
pub mod table_ops;
pub mod thread;
pub mod thread_ops;
pub mod waiter_queues;
