//! Reading and writing the memory of a running process through chains of
//! pointers, and loading a module into such a process.
//!
//! Every access goes through a capability ([`memory::ProcessMemory`]), never
//! through a pointer of the caller: an address is a plain integer, and what
//! the operating system refuses comes back as an ordinary failure.
//!
//! - [`chain`] walks a chain of pointers and reads or writes the value at its
//!   end; [`bitflag`] treats some bits of such a value as one flag.
//! - [`layout`] and [`codec`] say which bytes stand for a value.
//! - [`memory`] holds the capability, and [`simulated`] a process that stands
//!   still, to try chains on.
//! - [`inject`] has a process load a module; [`process`] picks the process by
//!   the name of its program.
//! - [`trainer`] and [`dsr`] hold the chains of two games; [`config`] and
//!   [`overlay`] what the overlay of the second is set up with.

pub mod bitflag;
pub mod chain;
pub mod codec;
pub mod config;
pub mod dsr;
pub mod inject;
pub mod layout;
pub mod memory;
pub mod overlay;
pub mod process;
pub mod simulated;
pub mod trainer;
