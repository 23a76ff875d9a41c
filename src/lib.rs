//! Verified core of a distributed task runtime's transport and coordination:
//! place ranks, handler-argument packing, segment sizing, message
//! fragmentation, reassembly of fragmented messages, end-to-end flow control,
//! global activity and finish ids, and finish termination accounting.

pub mod rank;
pub mod fragment;
pub mod handler_args;
pub mod sender;
pub mod segment;
pub mod reassembly;
pub mod global_id;
pub mod finish;
