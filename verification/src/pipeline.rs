//! Decision rules around the external rendering pipeline: where its script
//! lives, and what its invocation returns for each way the spawned process
//! can end.

use vstd::prelude::*;
use vstd::string::StringExecFns;
use crate::command::{CommandOutput, spawn_failure_spec, spawn_failure_message};
use crate::paths::{join_path_spec, join_path};

verus! {

/// The pipeline script's path, below the project root.
pub fn pipeline_script_path(root: &str) -> (r: String)
    ensures
        r@ == join_path_spec(root@, "scripts/pipeline.js"@),
{
    join_path(root, "scripts/pipeline.js")
}

/// What a pipeline invocation returns for what the host reported of the
/// spawned process: its standard output on success; its captured standard
/// error as the error on a non-zero exit; and the uniform spawn-failure
/// message where the process could not be spawned at all.
pub fn run_pipeline(query: Result<CommandOutput, String>) -> (r: Result<String, String>)
    ensures
        match query {
            Result::Ok(out) => {
                if out.success {
                    r matches Ok(s) && s@ == out.stdout@
                } else {
                    r matches Err(m) && m@ == out.stderr@
                }
            },
            Result::Err(e) => r matches Err(m) && m@ == spawn_failure_spec("node"@, e@),
        },
{
    match query {
        Result::Ok(out) => {
            if out.success {
                Result::Ok(out.stdout)
            } else {
                Result::Err(out.stderr)
            }
        },
        Result::Err(e) => Result::Err(spawn_failure_message("node", e.as_str())),
    }
}

} // verus!
