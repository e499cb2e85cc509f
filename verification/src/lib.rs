//! Replays a scripted sequence of keystrokes into an interactive shell,
//! simulating human typing.
//!
//! The library covers the three hard parts of that job: resolving
//! human-readable key names to the byte sequences a terminal would send
//! ([`keys`]), parsing the line-oriented script format into a command list
//! ([`parser`]), and pacing playback so that multi-byte escape sequences are
//! transmitted atomically ([`playback`]). The surrounding process work
//! (opening a pseudo-terminal, spawning a shell, wiring signals) is left to
//! the caller, which hands this library plain values and performs the actions
//! the playback engine asks for.

pub mod keys;
pub mod parser;
pub mod playback;
pub mod text;
pub mod types;
