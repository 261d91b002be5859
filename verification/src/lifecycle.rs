//! The lifecycle manager: the one component that coordinates registry,
//! port allocator and supervisor to launch, list, delete and recover
//! instances. Filesystem effects are returned as storage actions for
//! the surrounding application to apply; the manager's own state is
//! the source of the on-disk registry's contents.
use vstd::prelude::*;
use crate::codec::{encode_vm_info, spec_encode_record};
use crate::create_file_path;
use crate::ports::{some_port_taken, PortAllocator};
use crate::record::{Config, LaunchVmResponse, VmInfo, VmRecord};
use crate::registry::{port_of_some_record, Registry};

verus! {

/// What can go wrong in a lifecycle operation.
#[derive(Debug)]
pub enum VmError {
    /// I/O on the registry failed, or no fresh id could be drawn.
    Storage { message: String },
    /// A persisted entry could not be decoded.
    CorruptRecord { message: String },
    /// The base disk image could not be copied for a new instance.
    ImageCopy { message: String },
    /// The emulator process could not be started.
    Spawn { message: String },
    /// The graceful stop signal could not be delivered.
    Termination { pid: u32, message: String },
    /// No free SSH port was found.
    PortExhausted,
    /// No record with the requested id exists.
    NotFound,
}

/// A filesystem effect the surrounding application must apply to keep
/// the on-disk registry in step with the in-memory one.
#[derive(Debug, Clone)]
pub enum StorageAction {
    /// Write `contents` to `path`, atomically replacing any old file.
    WriteFile { path: String, contents: String },
    /// Remove `path`; a failure must be surfaced.
    RemoveFile { path: String },
    /// Remove `path`; a failure is logged and swallowed.
    RemoveFileBestEffort { path: String },
}

/// Relies on uuid's `Uuid::new_v4` and its hyphenated `Display` form:
/// a random version-4 UUID rendered as 36 lowercase hexadecimal and
/// hyphen characters. Nothing is assumed about which id comes back,
/// only the length of its rendering.
#[verifier::external_body]
fn fresh_instance_id() -> (r: String)
    ensures
        r@.len() == 36,
{
    uuid::Uuid::new_v4().to_string()
}

/// Orchestrates registry, port allocator and supervisor.
pub struct Manager {
    config: Config,
    registry: Registry,
    ports: PortAllocator,
}

impl View for Manager {
    type V = Map<Seq<char>, VmRecord>;

    closed spec fn view(&self) -> Map<Seq<char>, VmRecord> {
        self.registry@
    }
}

impl Manager {
    /// Registry and allocator invariants hold.
    pub closed spec fn wf(&self) -> bool {
        self.registry.wf() && self.ports.wf()
    }

    /// The configuration the manager was constructed with.
    pub closed spec fn config_spec(&self) -> Config {
        self.config
    }

    /// The configuration the manager was constructed with.
    pub fn config(&self) -> (r: &Config)
        ensures
            *r == self.config_spec(),
    {
        &self.config
    }

    /// Every port this manager has allocated.
    pub closed spec fn reserved_ports(&self) -> Seq<u16> {
        self.ports.reserved_ports()
    }

    /// A manager over an empty registry.
    pub fn new(config: Config) -> (r: Self)
        ensures
            r.wf(),
            r@ == Map::<Seq<char>, VmRecord>::empty(),
            r.config_spec() == config,
            r.reserved_ports() == Seq::<u16>::empty(),
    {
        Manager { config, registry: Registry::new(), ports: PortAllocator::new() }
    }

    /// A manager over a registry already loaded from storage.
    pub fn with_registry(config: Config, registry: Registry) -> (r: Self)
        requires
            registry.wf(),
        ensures
            r.wf(),
            r@ == registry@,
            r.config_spec() == config,
            r.reserved_ports() == Seq::<u16>::empty(),
    {
        Manager { config, registry, ports: PortAllocator::new() }
    }

    /// The base image to copy from and the per-instance disk image to
    /// copy to, derived from the instance name alone.
    pub fn image_paths(&self, name: &str) -> (r: (String, String))
        ensures
            r.0@ == self.config_spec().storage.base_image@,
            r.1@ == self.config_spec().storage.qcow2_dir@ + "/"@ + name@ + ".qcow2"@,
    {
        let source = self.config.storage.base_image.clone();
        let mut target = self.config.storage.qcow2_dir.clone();
        target.append("/");
        target.append(name);
        target.append(".qcow2");
        (source, target)
    }

    /// Path of the metadata file for the record with the given id.
    pub fn record_path(&self, id: &str) -> (r: String)
        ensures
            r@ == self.config_spec().storage.metadata_dir@ + "/"@ + id@ + ".json"@,
    {
        create_file_path(self.config.storage.metadata_dir.as_str(), id)
    }

    /// Allocates an SSH port for a new instance: one from the
    /// ephemeral range that no registry entry records and that this
    /// manager has not already handed out. While nothing was allocated
    /// yet and no registry entry records an ephemeral-range port — in
    /// particular, over an empty registry — allocation cannot fail.
    pub fn allocate_ssh_port(&mut self) -> (r: Result<u16, VmError>)
        requires
            old(self).wf(),
        ensures
            final(self).wf(),
            final(self)@ == old(self)@,
            final(self).config_spec() == old(self).config_spec(),
            (old(self).reserved_ports().len() == 0 && (forall|k: Seq<char>|
                #[trigger] old(self)@.contains_key(k) ==> !(49152 <= old(self)@[k].ssh_port
                    < 65535))) ==> r is Ok,
            match r {
                Ok(p) => {
                    &&& 49152 <= p < 65535
                    &&& !old(self).reserved_ports().contains(p)
                    &&& forall|k: Seq<char>|
                        #[trigger] old(self)@.contains_key(k) ==> old(self)@[k].ssh_port != p
                    &&& final(self).reserved_ports() == old(self).reserved_ports().push(p)
                },
                Err(e) => {
                    &&& e is PortExhausted
                    &&& final(self).reserved_ports() == old(self).reserved_ports()
                },
            },
    {
        let in_use = self.registry.ssh_ports();
        match self.ports.allocate(&in_use) {
            Some(p) => {
                proof {
                    assert forall|k: Seq<char>| #[trigger] self@.contains_key(k) implies self@[k].ssh_port
                        != p by {
                        assert(in_use@.contains(self@[k].ssh_port));
                    }
                }
                Ok(p)
            },
            None => {
                proof {
                    if old(self).reserved_ports().len() == 0 && (forall|k: Seq<char>|
                        #[trigger] old(self)@.contains_key(k) ==> !(49152 <= old(self)@[k].ssh_port
                            < 65535)) {
                        assert(some_port_taken(old(self).reserved_ports(), in_use@));
                        let q = choose|q: u16|
                            #![trigger old(self).reserved_ports().contains(q)]
                            #![trigger in_use@.contains(q)]
                            49152 <= q < 65535 && (old(self).reserved_ports().contains(q)
                                || in_use@.contains(q));
                        if old(self).reserved_ports().contains(q) {
                            let idx = choose|idx: int|
                                0 <= idx < old(self).reserved_ports().len() && old(
                                    self,
                                ).reserved_ports()[idx] == q;
                        } else {
                            let j = choose|j: int| 0 <= j < in_use@.len() && in_use@[j] == q;
                            assert(self@ == old(self)@);
                            assert(port_of_some_record(old(self)@, in_use@[j]));
                            let k = choose|k: Seq<char>|
                                (#[trigger] old(self)@.contains_key(k)) && old(self)@[k].ssh_port
                                    == q;
                            assert(old(self)@.contains_key(k));
                            assert(!(49152 <= old(self)@[k].ssh_port < 65535));
                        }
                    }
                }
                Err(VmError::PortExhausted)
            },
        }
    }

    /// Completes a launch after the surrounding application has copied
    /// the disk image and attempted the spawn. On a successful spawn a
    /// record with a fresh id is built and stored, and the action that
    /// persists it is returned; on a failed spawn, and on the rare
    /// failure to draw an unused id, the registry is left exactly as it
    /// was, so a failed launch never leaves a record behind. An id
    /// drawn over an empty registry cannot collide, so there a
    /// successful spawn always commits.
    pub fn launch_commit(&mut self, name: &str, ssh_port: u16, spawn: Result<u32, String>) -> (r:
        Result<(VmInfo, StorageAction), VmError>)
        requires
            old(self).wf(),
        ensures
            final(self).wf(),
            final(self).config_spec() == old(self).config_spec(),
            final(self).reserved_ports() == old(self).reserved_ports(),
            (spawn is Ok && (forall|k: Seq<char>| !(#[trigger] old(self)@.contains_key(k))))
                ==> r is Ok,
            match r {
                Ok(p) => {
                    &&& spawn matches Ok(pid) && p.0@.pid == pid
                    &&& p.0@.name == name@
                    &&& p.0@.ssh_port == ssh_port
                    &&& !old(self)@.contains_key(p.0@.id)
                    &&& final(self)@ == old(self)@.insert(p.0@.id, p.0@)
                    &&& p.1 matches StorageAction::WriteFile { path, contents } && path@ == old(
                        self,
                    ).config_spec().storage.metadata_dir@ + "/"@ + p.0@.id + ".json"@ && contents@
                        == spec_encode_record(p.0@)
                },
                Err(e) => {
                    &&& final(self)@ == old(self)@
                    &&& (spawn matches Err(m) ==> e matches VmError::Spawn { message } && message@
                        == "Failed to launch VM: "@ + m@)
                    &&& (spawn is Ok ==> e is Storage)
                },
            },
    {
        match spawn {
            Err(m) => {
                let mut message = "Failed to launch VM: ".to_owned();
                message.append(m.as_str());
                Err(VmError::Spawn { message })
            },
            Ok(pid) => {
                let mut attempt: usize = 0;
                while attempt < 16
                    invariant
                        *self == *old(self),
                        old(self).wf(),
                        spawn == Result::<u32, String>::Ok(pid),
                        attempt > 0 ==> exists|k: Seq<char>| #[trigger] old(self)@.contains_key(k),
                    decreases 16 - attempt,
                {
                    let id = fresh_instance_id();
                    match self.registry.get(id.as_str()) {
                        None => {
                            let record = VmInfo {
                                id,
                                name: name.to_owned(),
                                ssh_port,
                                pid,
                            };
                            let returned = record.clone();
                            let contents = encode_vm_info(&record);
                            let path = create_file_path(
                                self.config.storage.metadata_dir.as_str(),
                                record.id.as_str(),
                            );
                            self.registry.put(record);
                            return Ok((returned, StorageAction::WriteFile { path, contents }));
                        },
                        Some(_) => {
                            proof {
                                assert(old(self)@.contains_key(id@));
                            }
                        },
                    }
                    attempt = attempt + 1;
                }
                Err(
                    VmError::Storage {
                        message: "could not draw an unused instance id".to_owned(),
                    },
                )
            },
        }
    }

    /// All records, in unspecified order: exactly the registry's
    /// entries, one per id.
    pub fn list(&self) -> (r: Vec<VmInfo>)
        requires
            self.wf(),
        ensures
            r@.len() == self@.len(),
            forall|i: int|
                0 <= i < r@.len() ==> self@.contains_key((#[trigger] r@[i])@.id) && self@[r@[i]@.id]
                    == r@[i]@,
            forall|k: Seq<char>|
                #[trigger] self@.contains_key(k) ==> exists|i: int|
                    0 <= i < r@.len() && (#[trigger] r@[i])@.id == k,
            forall|i: int, j: int|
                0 <= i < j < r@.len() ==> (#[trigger] r@[i])@.id != (#[trigger] r@[j])@.id,
    {
        self.registry.list()
    }

    /// The record that a delete request would act on: the one stored
    /// under `id`, or not-found if there is none.
    pub fn delete_lookup(&self, id: &str) -> (r: Result<VmInfo, VmError>)
        requires
            self.wf(),
        ensures
            match r {
                Ok(v) => self@.contains_key(id@) && v@ == self@[id@] && v@.id == id@,
                Err(e) => e is NotFound && !self@.contains_key(id@),
            },
    {
        match self.registry.get(id) {
            Some(v) => Ok(v.clone()),
            None => Err(VmError::NotFound),
        }
    }

    /// Removes the record under `id` once its process has been
    /// stopped, returning the removed record, the action that removes
    /// its metadata file, and the best-effort action that removes its
    /// disk image. Deleting an absent id is not-found and changes
    /// nothing, however often it is retried.
    pub fn delete_commit(&mut self, id: &str) -> (r: Result<
        (VmInfo, StorageAction, StorageAction),
        VmError,
    >)
        requires
            old(self).wf(),
        ensures
            final(self).wf(),
            final(self).config_spec() == old(self).config_spec(),
            final(self).reserved_ports() == old(self).reserved_ports(),
            match r {
                Ok(p) => {
                    &&& old(self)@.contains_key(id@)
                    &&& p.0@ == old(self)@[id@]
                    &&& final(self)@ == old(self)@.remove(id@)
                    &&& p.1 matches StorageAction::RemoveFile { path } && path@ == old(
                        self,
                    ).config_spec().storage.metadata_dir@ + "/"@ + id@ + ".json"@
                    &&& p.2 matches StorageAction::RemoveFileBestEffort { path } && path@ == old(
                        self,
                    ).config_spec().storage.qcow2_dir@ + "/"@ + old(self)@[id@].name + ".qcow2"@
                },
                Err(e) => {
                    &&& e is NotFound
                    &&& !old(self)@.contains_key(id@)
                    &&& final(self)@ == old(self)@
                },
            },
    {
        match self.registry.delete(id) {
            Some(record) => {
                let meta = create_file_path(self.config.storage.metadata_dir.as_str(), id);
                let mut image = self.config.storage.qcow2_dir.clone();
                image.append("/");
                image.append(record.name.as_str());
                image.append(".qcow2");
                Ok(
                    (
                        record,
                        StorageAction::RemoveFile { path: meta },
                        StorageAction::RemoveFileBestEffort { path: image },
                    ),
                )
            },
            None => Err(VmError::NotFound),
        }
    }

    /// The cleanup owed when a launch fails after the disk image was
    /// already copied: the freshly copied per-instance image is
    /// removed, best-effort, so a failed launch leaves no orphaned
    /// artifact behind.
    pub fn launch_abort(&self, name: &str) -> (r: StorageAction)
        ensures
            r matches StorageAction::RemoveFileBestEffort { path } && path@ == self.config_spec(
            ).storage.qcow2_dir@ + "/"@ + name@ + ".qcow2"@,
    {
        let mut image = self.config.storage.qcow2_dir.clone();
        image.append("/");
        image.append(name);
        image.append(".qcow2");
        StorageAction::RemoveFileBestEffort { path: image }
    }

    /// Records the pid of a relaunched instance during startup
    /// recovery. The record keeps its id, name and SSH port; only the
    /// pid changes; every other record is untouched.
    pub fn recover_apply(&mut self, id: &str, new_pid: u32) -> (r: Result<
        (VmInfo, StorageAction),
        VmError,
    >)
        requires
            old(self).wf(),
        ensures
            final(self).wf(),
            final(self).config_spec() == old(self).config_spec(),
            final(self).reserved_ports() == old(self).reserved_ports(),
            match r {
                Ok(p) => {
                    &&& old(self)@.contains_key(id@)
                    &&& p.0@.id == old(self)@[id@].id
                    &&& p.0@.name == old(self)@[id@].name
                    &&& p.0@.ssh_port == old(self)@[id@].ssh_port
                    &&& p.0@.pid == new_pid
                    &&& final(self)@ == old(self)@.insert(id@, p.0@)
                    &&& p.1 matches StorageAction::WriteFile { path, contents } && path@ == old(
                        self,
                    ).config_spec().storage.metadata_dir@ + "/"@ + id@ + ".json"@ && contents@
                        == spec_encode_record(p.0@)
                },
                Err(e) => {
                    &&& e is NotFound
                    &&& !old(self)@.contains_key(id@)
                    &&& final(self)@ == old(self)@
                },
            },
    {
        let record = match self.registry.get(id) {
            Some(v) => v.clone(),
            None => {
                return Err(VmError::NotFound);
            },
        };
        let updated = VmInfo {
            id: record.id,
            name: record.name,
            ssh_port: record.ssh_port,
            pid: new_pid,
        };
        let returned = updated.clone();
        let contents = encode_vm_info(&updated);
        let path = create_file_path(self.config.storage.metadata_dir.as_str(), id);
        self.registry.put(updated);
        Ok((returned, StorageAction::WriteFile { path, contents }))
    }
}

/// The error reported when the base disk image cannot be copied for a
/// new instance; `cause` is the I/O failure's description.
pub fn image_copy_error(cause: &str) -> (r: VmError)
    ensures
        r matches VmError::ImageCopy { message } && message@ == "Failed to copy QCOW2 file: "@
            + cause@,
{
    let mut message = "Failed to copy QCOW2 file: ".to_owned();
    message.append(cause);
    VmError::ImageCopy { message }
}

/// The error reported for a persisted entry that could not be decoded.
pub fn corrupt_record_error(path: &str) -> (r: VmError)
    ensures
        r matches VmError::CorruptRecord { message } && message@ == "corrupt record at "@ + path@,
{
    let mut message = "corrupt record at ".to_owned();
    message.append(path);
    VmError::CorruptRecord { message }
}

/// The response reported for a successful launch: the new record's
/// identity and a message naming the instance and the requested
/// region.
pub fn launch_response_ok(record: &VmInfo, region: &str) -> (r: LaunchVmResponse)
    ensures
        r.success == true,
        r.message@ == "VM launch request received for "@ + record.name@ + " in "@ + region@,
        r.instance_id matches Some(id) && id@ == record.id@,
        r.ssh_port == Some(record.ssh_port),
        r.pid == Some(record.pid),
{
    let mut message = "VM launch request received for ".to_owned();
    message.append(record.name.as_str());
    message.append(" in ");
    message.append(region);
    LaunchVmResponse {
        success: true,
        message,
        instance_id: Some(record.id.clone()),
        ssh_port: Some(record.ssh_port),
        pid: Some(record.pid),
    }
}

/// The response reported for a failed launch: no identity, only the
/// message describing the failing step.
pub fn launch_response_err(message: String) -> (r: LaunchVmResponse)
    ensures
        r.success == false,
        r.message == message,
        r.instance_id is None,
        r.ssh_port is None,
        r.pid is None,
{
    LaunchVmResponse { success: false, message, instance_id: None, ssh_port: None, pid: None }
}

} // verus!
