//! The instance record: the unit of state the registry persists, plus the
//! request/response shapes of the lifecycle operations and the
//! configuration the core is constructed with.
use vstd::prelude::*;

verus! {

/// Mathematical model of one instance record.
#[verifier::ext_equal]
pub ghost struct VmRecord {
    pub id: Seq<char>,
    pub name: Seq<char>,
    pub ssh_port: u16,
    pub pid: u32,
}

/// Metadata of one supervised instance. `id` is the primary key,
/// `name` derives the disk-image filename, `ssh_port` is the host port
/// forwarded to the guest's SSH port, and `pid` is the OS process id of
/// the currently running emulator process.
#[derive(Debug)]
pub struct VmInfo {
    pub id: String,
    pub name: String,
    pub ssh_port: u16,
    pub pid: u32,
}

impl View for VmInfo {
    type V = VmRecord;

    open spec fn view(&self) -> VmRecord {
        VmRecord { id: self.id@, name: self.name@, ssh_port: self.ssh_port, pid: self.pid }
    }
}

impl Clone for VmInfo {
    fn clone(&self) -> (r: Self)
        ensures
            r@ == self@,
    {
        VmInfo {
            id: self.id.clone(),
            name: self.name.clone(),
            ssh_port: self.ssh_port,
            pid: self.pid,
        }
    }
}

impl VmInfo {
    pub fn new(id: &str, name: &str, ssh_port: u16, pid: u32) -> (r: Self)
        ensures
            r@ == (VmRecord { id: id@, name: name@, ssh_port, pid }),
    {
        VmInfo { id: id.to_owned(), name: name.to_owned(), ssh_port, pid }
    }
}

/// Body of a launch request. Only `name` affects core behavior;
/// `instance_type` and `region` are echoed into the human-readable
/// message.
pub struct LaunchVmRequest {
    pub name: String,
    pub instance_type: String,
    pub region: String,
}

/// Outcome of a launch request as reported to the caller.
pub struct LaunchVmResponse {
    pub success: bool,
    pub message: String,
    pub instance_id: Option<String>,
    pub ssh_port: Option<u16>,
    pub pid: Option<u32>,
}

/// Body of a delete request.
pub struct DeleteVmRequest {
    pub id: String,
}

/// Directories the core works under, and the base disk image every
/// instance is cloned from.
pub struct StorageConfig {
    pub qcow2_dir: String,
    pub metadata_dir: String,
    pub base_image: String,
}

/// Configuration the core is constructed with, supplied once at startup
/// by the surrounding application.
pub struct Config {
    pub storage: StorageConfig,
}

impl Config {
    /// The directory that holds one metadata file per registered instance.
    pub fn get_vms_dir(&self) -> (r: String)
        ensures
            r@ == self.storage.metadata_dir@,
    {
        self.storage.metadata_dir.clone()
    }
}

} // verus!
