//! Kubernetes inspection.
pub mod containers;
pub mod contexts;
pub mod describe;
pub mod discovery;
pub mod env;
pub mod events;
pub mod failing;
pub mod get;
pub mod images;
pub mod kinds;
pub mod logs;
pub mod not_ready;
pub mod pending;
pub mod podtable;
pub mod restarts;
pub mod schema;
pub mod scope;

use vstd::prelude::*;

verus! {

/// The commands on a cluster.
#[derive(Debug)]
pub enum K8sCommand {
    /// Lists every kind that the cluster serves.
    Kinds(kinds::KindsArgs),
    /// Lists or gets objects of a kind.
    Get(get::GetArgs),
    /// Lists the images of containers.
    Images(images::ImagesArgs),
    /// Lists the variables of one object's containers.
    Env(env::EnvArgs),
}

} // verus!
