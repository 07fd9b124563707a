//! A verified core for a desktop-application backend that launches,
//! supervises and tears down a single long-running helper process.
//!
//! The library holds the logic worth proving: the supervised-process state
//! machine (`supervisor`), the per-stream output relay (`relay`), the
//! executable path resolver (`resolver`) and the environment-variable text
//! format (`environment`), together with the text primitives they share
//! (`text`). Everything that touches the operating system — spawning,
//! signalling, reading pipes, probing the filesystem — lives outside the
//! library and hands it plain values.

pub mod supervisor;
pub mod text;
pub mod environment;
pub mod relay;
pub mod resolver;
