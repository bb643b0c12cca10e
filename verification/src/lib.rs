//! Core of a desktop shell that supervises an external image-processing tool:
//! verified payload parsing for the inbound start/kill commands, the relay
//! state machine that republishes the tool's output and schedules periodic
//! stimulus writes, and resolution of kill commands to termination calls.
pub mod commands;
pub mod relay;
pub mod text;
