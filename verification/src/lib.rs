//! Coordination of bots that play a game together.
//!
//! Bots connect and report; the coordinator gathers them in lobbies of ten, hands out roles and
//! starter replays on both sides, names the team that is to win, passes on what happens, and keeps
//! record of results and of time played. This crate holds the decisions: each step takes plain
//! values, the handles by which connections are written to (`W`) and waiting tasks are woken (`S`),
//! and says what is to be sent to whom. Sockets, timers and files are left to the program around it.

pub mod clients;
pub mod config;
pub mod decimal;
pub mod draw;
pub mod framing;
pub mod inbound;
pub mod lobby;
pub mod notify;
pub mod outbound;
pub mod play_time;
pub mod roles;
pub mod served;
pub mod service;
pub mod statistics;
pub mod string_map;
pub mod telemetry;
pub mod text;
