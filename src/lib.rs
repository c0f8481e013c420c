//! Control of bidirectional actuators from line commands: the command
//! parser, the timed motion of each channel, the set of channels that
//! commands address, and the state that the receive and tick interrupts
//! hand to the main loop.

pub mod command;
pub mod controller;
pub mod dispatch;
pub mod elapsed;
pub mod receiver;
pub mod string;
