use vm_orchestrator::codec::{encode_vm_info, parse_vm_info};
use vm_orchestrator::record::VmInfo;

#[test]
fn encode_produces_pretty_json() {
    let vm = VmInfo::new("test-1", "Test VM 1", 2222, 1234);
    let expected = "{\n  \"id\": \"test-1\",\n  \"name\": \"Test VM 1\",\n  \"ssh_port\": 2222,\n  \"pid\": 1234\n}";
    assert_eq!(encode_vm_info(&vm), expected);
}

#[test]
fn parse_reads_canonical_text() {
    let text = "{\n  \"id\": \"abc\",\n  \"name\": \"demo\",\n  \"ssh_port\": 49152,\n  \"pid\": 7\n}";
    let vm = parse_vm_info(text).unwrap();
    assert_eq!(vm.id, "abc");
    assert_eq!(vm.name, "demo");
    assert_eq!(vm.ssh_port, 49152);
    assert_eq!(vm.pid, 7);
}

#[test]
fn round_trip_plain_record() {
    let vm = VmInfo::new("5f2c0d1e-0000-4abc-8def-000000000001", "ubuntu-a", 50123, 4242);
    let parsed = parse_vm_info(&encode_vm_info(&vm)).unwrap();
    assert_eq!(parsed.id, vm.id);
    assert_eq!(parsed.name, vm.name);
    assert_eq!(parsed.ssh_port, vm.ssh_port);
    assert_eq!(parsed.pid, vm.pid);
}

#[test]
fn round_trip_record_with_escapes() {
    let name = "a \"quoted\\name\"\nwith\ttabs\rand\u{1}control\u{1f}chars";
    let vm = VmInfo::new("id-1", name, 65534, u32::MAX);
    let encoded = encode_vm_info(&vm);
    let parsed = parse_vm_info(&encoded).unwrap();
    assert_eq!(parsed.name, name);
    assert_eq!(parsed.ssh_port, 65534);
    assert_eq!(parsed.pid, u32::MAX);
}

#[test]
fn round_trip_record_with_unicode() {
    let vm = VmInfo::new("id-2", "boîte à outils 箱", 49999, 9);
    let parsed = parse_vm_info(&encode_vm_info(&vm)).unwrap();
    assert_eq!(parsed.name, "boîte à outils 箱");
}

#[test]
fn parse_accepts_escaped_control_characters() {
    let text = "{\n  \"id\": \"a\\u0009b\",\n  \"name\": \"c\\u0000d\",\n  \"ssh_port\": 1,\n  \"pid\": 2\n}";
    let vm = parse_vm_info(text).unwrap();
    assert_eq!(vm.id, "a\tb");
    assert_eq!(vm.name, "c\u{0}d");
}

#[test]
fn parse_rejects_malformed_text() {
    // Not JSON at all.
    assert!(parse_vm_info("not json").is_none());
    // Empty input.
    assert!(parse_vm_info("").is_none());
    // A field is missing.
    assert!(parse_vm_info("{\n  \"id\": \"a\",\n  \"name\": \"b\",\n  \"pid\": 2\n}").is_none());
    // Unterminated string.
    assert!(parse_vm_info("{\n  \"id\": \"a").is_none());
    // Raw control character inside a string.
    assert!(parse_vm_info("{\n  \"id\": \"a\u{1}\",\n  \"name\": \"b\",\n  \"ssh_port\": 1,\n  \"pid\": 2\n}").is_none());
    // Trailing bytes after the closing brace.
    assert!(parse_vm_info("{\n  \"id\": \"a\",\n  \"name\": \"b\",\n  \"ssh_port\": 1,\n  \"pid\": 2\n}x").is_none());
}

#[test]
fn parse_rejects_out_of_range_numbers() {
    // Port above the 16-bit range.
    assert!(parse_vm_info("{\n  \"id\": \"a\",\n  \"name\": \"b\",\n  \"ssh_port\": 65536,\n  \"pid\": 2\n}").is_none());
    // Pid above the 32-bit range.
    assert!(parse_vm_info("{\n  \"id\": \"a\",\n  \"name\": \"b\",\n  \"ssh_port\": 1,\n  \"pid\": 4294967296\n}").is_none());
    // Boundary values are accepted.
    let vm = parse_vm_info("{\n  \"id\": \"a\",\n  \"name\": \"b\",\n  \"ssh_port\": 65535,\n  \"pid\": 4294967295\n}").unwrap();
    assert_eq!(vm.ssh_port, 65535);
    assert_eq!(vm.pid, u32::MAX);
}

#[test]
fn encode_escapes_special_characters() {
    let vm = VmInfo::new("i", "a\"b\\c\nd", 1, 2);
    let encoded = encode_vm_info(&vm);
    assert!(encoded.contains("a\\\"b\\\\c\\nd"));
}
