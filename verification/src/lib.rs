//! Kernel logic: user memory areas and address spaces, frame reference
//! counts, sockets and their options, IP packet headers and routing,
//! logging and IPI queues.

pub mod area;
pub mod flags;
pub mod memory_set;
pub mod text;
pub mod addr;
pub mod logging;
pub mod state;
pub mod errors;
pub mod socket;
pub mod options;
pub mod listen_table;
pub mod router;
pub mod packet;
pub mod echo;
pub mod ipi;
pub mod frame_table;
pub mod aspace;
pub mod vsock;
pub mod shared;
pub mod device;
pub mod tcp;
pub mod udp;
pub mod backend;
pub mod unix;
pub mod smol_tcp;
pub mod dns;
