//! Kernel core of a bare-metal framework: typed register values and
//! ownership tokens, cooperative fiber chains driven by interrupt threads,
//! the guard cells that keep a thread's walk from being re-entered, and an
//! owned nul-terminated byte string for foreign interfaces.
pub mod cstring;
pub mod fib;
pub mod reg;
pub mod thr;
