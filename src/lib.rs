//! A peer-to-peer RPC multiplexer: the packet format, the routing tables and
//! the per-endpoint request/response bridge, each as a verified state machine.
pub mod packet;
pub mod manager;
pub mod endpoint;
