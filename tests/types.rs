use lightning_core::ebpf::{File, FileRule, PacketFilter};

#[test]
fn file_without_device() {
    let f = File::new(42);
    assert_eq!(f.inode, 42);
    assert_eq!(f.dev, 0);
}

#[test]
fn default_file_rule_allows_nothing() {
    let r = FileRule::default();
    assert_eq!(r.inode, 0);
    assert_eq!(r.permissions, FileRule::NO_OPERATION);
    assert_eq!(FileRule::OPEN_MASK | FileRule::READ_MASK | FileRule::WRITE_MASK | FileRule::EXEC_MASK, 15);
}

#[test]
fn packet_filters_compare_by_fields() {
    let a = PacketFilter { ip: 1, port: 80, proto: u16::MAX };
    let b = PacketFilter { ip: 1, port: 80, proto: u16::MAX };
    assert!(a == b);
    assert!(a != PacketFilter { ip: 2, ..b });
}
