//! The control plane: wire codec, message types, request dispatch,
//! and the client's request builders.

pub mod codec;

pub mod messages;

pub mod converters;

pub mod rpc_server;

pub mod client;
