//! Logs from a Loki server.
pub mod client;
pub mod common_args;
pub mod label_values;
pub mod labels;
pub mod query;
pub mod range;
pub mod runner;
pub mod series;

use crate::output::{Error, Report};
use client::{loki_data, HttpReply, LokiClient};
use query::{query_path, result_rows};
use runner::ends_with;
use vstd::prelude::*;

verus! {

/// The commands on a Loki server.
#[derive(Debug)]
pub enum LokiCommand {
    /// An instant query.
    Query(query::QueryArgs),
    /// A query over a span of time.
    QueryRange(range::RangeArgs),
}

/// Runs a command on the server's reply to the request for `path`, which for an instant query
/// is its own path.
pub fn run(cmd: &LokiCommand, client: &LokiClient, path: &str, reply: HttpReply) -> (r: Result<Report, Error>)
    ensures
        match cmd {
            LokiCommand::Query(args) => ends_with(
                r,
                args.common,
                loki_data(client.base_url@, query_path(args.query@), reply@),
                result_rows(),
            ),
            LokiCommand::QueryRange(args) => ends_with(
                r,
                args.common,
                loki_data(client.base_url@, path@, reply@),
                result_rows(),
            ),
        },
{
    match cmd {
        LokiCommand::Query(args) => query::run(args, client, reply),
        LokiCommand::QueryRange(args) => range::run(args, client, path, reply),
    }
}

} // verus!
