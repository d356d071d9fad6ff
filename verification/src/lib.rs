//! Task subsystem of a capability microkernel: lifecycles, kernel objects,
//! mailboxes, jobs, tunnels and address-space bookkeeping.
pub mod address_space;
pub mod backing;
pub mod bootstrap;
pub mod building_calls;
pub mod delivery;
pub mod elf_layout;
pub mod error;
pub mod execution;
pub mod handle;
pub mod handle_close;
pub mod ids;
pub mod ipc;
pub mod job;
pub mod launch;
pub mod lifecycle;
pub mod lifetime;
pub mod mailbox;
pub mod map_intent;
pub mod memory_calls;
pub mod memory_change;
pub mod memory_object;
pub mod memory_pool;
pub mod notification;
pub mod notify_work;
pub mod object;
pub mod ordered_table;
pub mod process;
pub mod process_drain;
pub mod process_table;
pub mod region;
pub mod request;
pub mod resources;
pub mod retirement;
pub mod rights;
pub mod running_change;
pub mod shootdown;
pub mod signals;
pub mod space;
pub mod space_drain;
pub mod system_reset;
pub mod thread;
pub mod translation;
pub mod tunnel;
pub mod tunnel_calls;
pub mod unfair;
pub mod view_permits;
