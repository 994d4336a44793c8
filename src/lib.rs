//! Hosts a natively compiled module that is swapped for each new build of it
//! while the program runs: the decisions of the module host, of the build
//! supervisor and of the render loop, each with its contract.

pub mod driver;
pub mod host;
pub mod lifecycle;
pub mod naming;
pub mod supervisor;
