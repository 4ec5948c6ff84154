//! Instances and images of an LXD or Incus daemon.
pub mod client;
pub mod config;
pub mod images;
pub mod info;
pub mod list;

use vstd::prelude::*;

verus! {

/// The commands on a daemon.
#[derive(Debug)]
pub enum LxcCommand {
    /// Lists instances.
    List(list::ListArgs),
    /// Shows one instance.
    Info(info::InfoArgs),
}

} // verus!
