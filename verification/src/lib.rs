//! Control core for networked haptic devices.
//!
//! Two parts work together. The command manager turns device-agnostic
//! commands ("vibrate at one half") into the integer steps a given device
//! understands and leaves out what the device has already been told. The
//! websocket hardware session keeps book of one live connection: whether it
//! is connected, whether a listener is subscribed, and what the connection
//! loop does on each timer tick, queued write and received frame.
//!
//! Nothing here touches a socket, a channel, a timer or a task: those belong
//! to the code that drives these state machines and carries out what they
//! decide.

pub mod errors;
pub mod decimal;
pub mod double;
pub mod messages;
pub mod dedup;
pub mod generic_command_manager;
pub mod manager_proofs;
pub mod cancellation;
pub mod hardware;
pub mod websocket_server_hardware;
pub mod connection_loop;
