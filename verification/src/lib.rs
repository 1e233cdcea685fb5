//! Wake-on-LAN library: parse a hardware (MAC) address, build the magic
//! packet, and drive the socket lifecycle of a single broadcast send as a
//! verified state machine.

pub mod err;
pub mod mac;
pub mod packet;
pub mod transmit;
