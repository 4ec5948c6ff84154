//! What all commands on a Loki server take.
use vstd::prelude::*;

verus! {

/// Where the server is and how the answer is shown.
#[derive(Debug)]
pub struct CommonLokiArgs {
    pub url: Option<String>,
    /// Shows the answer as JSON.
    pub json: bool,
    pub limit: Option<usize>,
}

} // verus!
