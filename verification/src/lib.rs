//! Front-end core of a room balancer: backend discovery, pool
//! reconciliation and the per-room client session state machine.

pub mod address;
pub mod ipv6;
pub mod target;
pub mod text;
pub mod token;
pub mod session;
pub mod interval;
pub mod json;
pub mod discovery;
pub mod dns;
pub mod pool;
