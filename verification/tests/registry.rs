use vm_orchestrator::record::VmInfo;
use vm_orchestrator::registry::Registry;

fn create_test_vm(id: &str, name: &str) -> VmInfo {
    VmInfo::new(id, name, 2222, 1234)
}

#[test]
fn test_store_and_get_vm() {
    let mut registry = Registry::new();
    let vm = create_test_vm("test-1", "Test VM 1");

    registry.put(vm.clone());

    let retrieved = registry.get("test-1").unwrap();
    assert_eq!(retrieved.id, vm.id);
    assert_eq!(retrieved.name, vm.name);
    assert_eq!(retrieved.ssh_port, vm.ssh_port);
    assert_eq!(retrieved.pid, vm.pid);
}

#[test]
fn test_get_nonexistent_vm() {
    let registry = Registry::new();
    let result = registry.get("nonexistent");
    assert!(result.is_none());
}

#[test]
fn test_list_vms() {
    let mut registry = Registry::new();
    let vm1 = create_test_vm("test-2", "Test VM 2");
    let vm2 = create_test_vm("test-3", "Test VM 3");

    registry.put(vm1.clone());
    registry.put(vm2.clone());

    let vms = registry.list();

    let ids: Vec<String> = vms.iter().map(|v| v.id.clone()).collect();
    assert!(ids.contains(&vm1.id));
    assert!(ids.contains(&vm2.id));
}

#[test]
fn test_delete_vm() {
    let mut registry = Registry::new();
    let vm = create_test_vm("test-4", "Test VM 4");

    registry.put(vm);

    // The removed record is returned, so a caller can see what was
    // deleted; absence of the id afterwards is what matters.
    let result = registry.delete("test-4");
    assert!(result.is_some());
    assert_eq!(result.unwrap().id, "test-4");

    let result = registry.get("test-4");
    assert!(result.is_none());
}

#[test]
fn test_delete_nonexistent_vm() {
    let mut registry = Registry::new();
    let result = registry.delete("nonexistent");
    assert!(result.is_none());
}

#[test]
fn delete_nonexistent_twice_has_no_effect() {
    let mut registry = Registry::new();
    registry.put(create_test_vm("kept", "Kept VM"));

    assert!(registry.delete("missing").is_none());
    assert!(registry.delete("missing").is_none());

    let vms = registry.list();
    assert_eq!(vms.len(), 1);
    assert_eq!(vms[0].id, "kept");
}

#[test]
fn put_overwrites_record_with_same_id() {
    let mut registry = Registry::new();
    registry.put(VmInfo::new("dup", "first", 50000, 1));
    registry.put(VmInfo::new("dup", "second", 50001, 2));

    let vms = registry.list();
    assert_eq!(vms.len(), 1);
    let v = registry.get("dup").unwrap();
    assert_eq!(v.name, "second");
    assert_eq!(v.ssh_port, 50001);
    assert_eq!(v.pid, 2);
}

#[test]
fn list_of_empty_registry_is_empty() {
    let registry = Registry::new();
    assert!(registry.list().is_empty());
}

#[test]
fn list_returns_all_distinct_records() {
    let mut registry = Registry::new();
    let mut ids: Vec<String> = Vec::new();
    for k in 0..5u32 {
        let id = format!("vm-{}", k);
        registry.put(VmInfo::new(&id, "box", 50000 + k as u16, 100 + k));
        ids.push(id);
    }
    let vms = registry.list();
    assert_eq!(vms.len(), 5);
    for id in &ids {
        assert!(vms.iter().any(|v| &v.id == id));
    }
}
