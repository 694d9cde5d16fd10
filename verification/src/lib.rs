//! An NBD (network block device) server: the wire format of requests and
//! replies, and the decisions a server takes for each request.

pub mod wire;
pub mod nbd;
pub mod device;
pub mod sys;
