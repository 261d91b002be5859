//! Core logic of a small virtual-machine orchestrator: a durable registry of
//! instance records, an SSH port allocator, a process supervisor's decision
//! logic and command builder, and the lifecycle manager that ties them
//! together. File and process side effects are performed by the surrounding
//! application; this crate computes and verifies every decision.
use vstd::prelude::*;

pub mod codec;
pub mod laws;
pub mod lifecycle;
pub mod ports;
pub mod record;
pub mod registry;
pub mod supervisor;
pub mod text;

verus! {

/// Path of the metadata file that stores the record with the given id,
/// inside the registry directory `vms_dir`.
pub fn create_file_path(vms_dir: &str, id: &str) -> (r: String)
    ensures
        r@ == vms_dir@ + "/"@ + id@ + ".json"@,
{
    let mut p = vms_dir.to_owned();
    p.append("/");
    p.append(id);
    p.append(".json");
    p
}

} // verus!
