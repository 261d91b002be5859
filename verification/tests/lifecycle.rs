use vm_orchestrator::codec::parse_vm_info;
use vm_orchestrator::lifecycle::{
    corrupt_record_error, image_copy_error, launch_response_err, launch_response_ok, Manager,
    StorageAction, VmError,
};
use vm_orchestrator::record::{Config, StorageConfig, VmInfo};
use vm_orchestrator::registry::Registry;

fn test_config() -> Config {
    Config {
        storage: StorageConfig {
            qcow2_dir: "/srv/images".to_string(),
            metadata_dir: "/srv/vms".to_string(),
            base_image: "/srv/base/ubuntu.qcow2".to_string(),
        },
    }
}

#[test]
fn launch_against_stub_supervisor_persists_one_record() {
    // End-to-end launch with a supervisor stubbed to succeed with pid
    // 999: a fresh id, the requested name, a port from the ephemeral
    // range, and exactly one stored record.
    let mut manager = Manager::new(test_config());
    let port = manager.allocate_ssh_port().unwrap();
    assert!((49152..65535).contains(&port));

    let (record, action) = manager.launch_commit("demo", port, Ok(999)).unwrap();
    assert_eq!(record.name, "demo");
    assert_eq!(record.ssh_port, port);
    assert_eq!(record.pid, 999);
    assert_eq!(record.id.len(), 36);

    let vms = manager.list();
    assert_eq!(vms.len(), 1);
    assert_eq!(vms[0].id, record.id);

    match action {
        StorageAction::WriteFile { path, contents } => {
            assert_eq!(path, format!("/srv/vms/{}.json", record.id));
            let stored = parse_vm_info(&contents).unwrap();
            assert_eq!(stored.id, record.id);
            assert_eq!(stored.name, "demo");
            assert_eq!(stored.ssh_port, port);
            assert_eq!(stored.pid, 999);
        }
        _ => panic!("launch must persist through a write action"),
    }
}

#[test]
fn failed_launch_leaves_no_orphan_record() {
    let mut manager = Manager::new(test_config());
    let port = manager.allocate_ssh_port().unwrap();

    let err = manager.launch_commit("demo", port, Err("boom".to_string())).unwrap_err();
    match err {
        VmError::Spawn { message } => assert_eq!(message, "Failed to launch VM: boom"),
        _ => panic!("a failed spawn must be reported as a spawn error"),
    }
    assert!(manager.list().is_empty());
}

#[test]
fn launches_get_distinct_ids_and_ports() {
    let mut manager = Manager::new(test_config());
    let p1 = manager.allocate_ssh_port().unwrap();
    let p2 = manager.allocate_ssh_port().unwrap();
    assert_ne!(p1, p2);

    let (r1, _) = manager.launch_commit("one", p1, Ok(11)).unwrap();
    let (r2, _) = manager.launch_commit("two", p2, Ok(22)).unwrap();
    assert_ne!(r1.id, r2.id);
    assert_eq!(manager.list().len(), 2);
}

#[test]
fn concurrent_style_allocations_are_pairwise_distinct() {
    // Eight allocations with no prior registry entries: all distinct.
    let mut manager = Manager::new(test_config());
    let mut ports: Vec<u16> = Vec::new();
    for _ in 0..8 {
        ports.push(manager.allocate_ssh_port().unwrap());
    }
    for i in 0..ports.len() {
        assert!((49152..65535).contains(&ports[i]));
        for j in 0..i {
            assert_ne!(ports[i], ports[j]);
        }
    }
}

#[test]
fn allocation_avoids_ports_recorded_in_registry() {
    let mut registry = Registry::new();
    registry.put(VmInfo::new("a", "x", 50000, 1));
    let mut manager = Manager::with_registry(test_config(), registry);
    for _ in 0..32 {
        let p = manager.allocate_ssh_port().unwrap();
        assert_ne!(p, 50000);
    }
}

#[test]
fn recovery_preserves_identity() {
    // A registry with {id=A, name="x", sshPort=50000, pid=111} and a
    // supervisor stubbed to return pid 222 yields exactly one record
    // {id=A, name="x", sshPort=50000, pid=222}.
    let mut registry = Registry::new();
    registry.put(VmInfo::new("A", "x", 50000, 111));
    let mut manager = Manager::with_registry(test_config(), registry);

    let (updated, action) = manager.recover_apply("A", 222).unwrap();
    assert_eq!(updated.id, "A");
    assert_eq!(updated.name, "x");
    assert_eq!(updated.ssh_port, 50000);
    assert_eq!(updated.pid, 222);

    let vms = manager.list();
    assert_eq!(vms.len(), 1);
    assert_eq!(vms[0].id, "A");
    assert_eq!(vms[0].name, "x");
    assert_eq!(vms[0].ssh_port, 50000);
    assert_eq!(vms[0].pid, 222);

    match action {
        StorageAction::WriteFile { path, contents } => {
            assert_eq!(path, "/srv/vms/A.json");
            let stored = parse_vm_info(&contents).unwrap();
            assert_eq!(stored.pid, 222);
        }
        _ => panic!("recovery must rewrite the record"),
    }
}

#[test]
fn recovery_of_unknown_id_is_not_found() {
    let mut manager = Manager::new(test_config());
    assert!(matches!(manager.recover_apply("ghost", 5), Err(VmError::NotFound)));
}

#[test]
fn delete_removes_record_and_returns_cleanup_actions() {
    let mut manager = Manager::new(test_config());
    let port = manager.allocate_ssh_port().unwrap();
    let (record, _) = manager.launch_commit("demo", port, Ok(7)).unwrap();

    let found = manager.delete_lookup(&record.id).unwrap();
    assert_eq!(found.pid, 7);

    let (removed, meta, image) = manager.delete_commit(&record.id).unwrap();
    assert_eq!(removed.id, record.id);
    match meta {
        StorageAction::RemoveFile { path } => {
            assert_eq!(path, format!("/srv/vms/{}.json", record.id));
        }
        _ => panic!("the metadata file must be removed"),
    }
    match image {
        StorageAction::RemoveFileBestEffort { path } => {
            assert_eq!(path, "/srv/images/demo.qcow2");
        }
        _ => panic!("the disk image is removed best-effort"),
    }
    assert!(manager.list().is_empty());
}

#[test]
fn deleting_nonexistent_id_is_not_found_both_times() {
    let mut manager = Manager::new(test_config());
    assert!(matches!(manager.delete_lookup("missing"), Err(VmError::NotFound)));
    assert!(matches!(manager.delete_commit("missing"), Err(VmError::NotFound)));
    assert!(matches!(manager.delete_commit("missing"), Err(VmError::NotFound)));
    assert!(manager.list().is_empty());
}

#[test]
fn launch_abort_removes_the_copied_image() {
    let manager = Manager::new(test_config());
    match manager.launch_abort("demo") {
        StorageAction::RemoveFileBestEffort { path } => {
            assert_eq!(path, "/srv/images/demo.qcow2");
        }
        _ => panic!("an aborted launch removes the copied image best-effort"),
    }
}

#[test]
fn image_paths_derive_from_name() {
    let manager = Manager::new(test_config());
    let (source, target) = manager.image_paths("demo");
    assert_eq!(source, "/srv/base/ubuntu.qcow2");
    assert_eq!(target, "/srv/images/demo.qcow2");
    assert_eq!(manager.record_path("abc"), "/srv/vms/abc.json");
    assert_eq!(test_config().get_vms_dir(), "/srv/vms");
    assert_eq!(vm_orchestrator::create_file_path("/srv/vms", "abc"), "/srv/vms/abc.json");
}

#[test]
fn registry_rebuilds_from_stored_entries() {
    let mut seed = Manager::new(test_config());
    let p = seed.allocate_ssh_port().unwrap();
    let (record, action) = seed.launch_commit("demo", p, Ok(3)).unwrap();
    let contents = match action {
        StorageAction::WriteFile { contents, .. } => contents,
        _ => panic!("launch must persist through a write action"),
    };

    let entries = vec![
        contents.clone(),
        "garbage".to_string(),
        contents.clone(),
    ];
    let (registry, corrupt) = Registry::from_entries(&entries);
    // The valid entry loads once; the garbage entry and the duplicate
    // id are reported by index.
    assert_eq!(corrupt, vec![1usize, 2usize]);
    let loaded = registry.get(&record.id).unwrap();
    assert_eq!(loaded.name, "demo");
    assert_eq!(loaded.pid, 3);
    assert_eq!(registry.list().len(), 1);
}

#[test]
fn launch_responses_report_outcome() {
    let record = VmInfo::new("id-9", "demo", 50001, 77);
    let ok = launch_response_ok(&record, "eu-west");
    assert!(ok.success);
    assert_eq!(ok.message, "VM launch request received for demo in eu-west");
    assert_eq!(ok.instance_id.as_deref(), Some("id-9"));
    assert_eq!(ok.ssh_port, Some(50001));
    assert_eq!(ok.pid, Some(77));

    let err = launch_response_err("Failed to copy QCOW2 file: missing".to_string());
    assert!(!err.success);
    assert_eq!(err.message, "Failed to copy QCOW2 file: missing");
    assert!(err.instance_id.is_none());
    assert!(err.ssh_port.is_none());
    assert!(err.pid.is_none());
}

#[test]
fn error_constructors_carry_their_messages() {
    match image_copy_error("no base image") {
        VmError::ImageCopy { message } => {
            assert_eq!(message, "Failed to copy QCOW2 file: no base image");
        }
        _ => panic!("copy failures are image-copy errors"),
    }
    match corrupt_record_error("/srv/vms/x.json") {
        VmError::CorruptRecord { message } => {
            assert_eq!(message, "corrupt record at /srv/vms/x.json");
        }
        _ => panic!("decode failures are corrupt-record errors"),
    }
}
