use sysctl::entry::EntryType;
use sysctl::error::MibError;
use sysctl::kind::Kind;
use sysctl::mib::Mib;
use sysctl::netlink::{flag_clear, sockaddr_nl, with_flag, AF_NETLINK};

#[test]
fn default_handle_is_kernel() {
    let m = Mib::default();
    assert_eq!(m.path(), "/proc/sys/kernel");
    assert_eq!(m.name().unwrap(), "kernel");
}

#[test]
fn from_canonical_accepts_descendants_only() {
    let m = Mib::from_canonical("/proc/sys/kernel/ostype".to_string()).unwrap();
    assert_eq!(m.name().unwrap(), "kernel.ostype");
    assert_eq!(Mib::from_canonical("/proc/sys".to_string()).unwrap_err(), MibError::NotFound);
    assert_eq!(Mib::from_canonical("/etc/passwd".to_string()).unwrap_err(), MibError::NotFound);
}

#[test]
fn metadata_uses_kind_table() {
    let m = Mib::from_canonical("/proc/sys/kernel/osrelease".to_string()).unwrap();
    let md = m.metadata().unwrap();
    assert_eq!(md.kind, Kind::String);
    assert_eq!(md.indication, "");
    let u = Mib::from_canonical("/proc/sys/vm/swappiness".to_string()).unwrap();
    assert_eq!(u.metadata().unwrap().kind, Kind::Unknow);
    assert_eq!(Mib::default().metadata().unwrap().kind, Kind::Node);
}

#[test]
fn kind_of_handle() {
    let m = Mib::from_canonical("/proc/sys/kernel/ostype".to_string()).unwrap();
    assert_eq!(m.kind(), Kind::I32);
    assert_eq!(Mib::default().kind(), Kind::Node);
    let u = Mib::from_canonical("/proc/sys/fs/file-max".to_string()).unwrap();
    assert_eq!(u.kind(), Kind::Unknow);
}

#[test]
fn description_is_not_available() {
    assert_eq!(Mib::default().description(), Err(MibError::Other));
    let m = Mib::from_canonical("/proc/sys/kernel/ostype".to_string()).unwrap();
    assert_eq!(m.description(), Err(MibError::Other));
}

#[test]
fn value_access_by_entry_type() {
    let m = Mib::default();
    assert_eq!(m.value_access(EntryType::Leaf), Ok(()));
    assert_eq!(m.value_access(EntryType::Container), Err(MibError::InvalidOperation));
    assert_eq!(m.value_access(EntryType::Unsupported), Err(MibError::Unsupported));
}

#[test]
fn classification_is_exclusive() {
    for t in [EntryType::Container, EntryType::Leaf] {
        assert!(t.is_container() != t.is_leaf());
    }
    assert!(!EntryType::Unsupported.is_container());
    assert!(!EntryType::Unsupported.is_leaf());
}

#[test]
fn netlink_address() {
    let a = sockaddr_nl::new(42, 5);
    assert_eq!(a.nl_family, AF_NETLINK as u16);
    assert_eq!(a.nl_family, 16);
    assert_eq!(a.nl_pad, 0);
    assert_eq!(a.nl_pid, 42);
    assert_eq!(a.nl_groups, 5);
}

#[test]
fn status_flag_bits() {
    assert_eq!(with_flag(0b0001, 0b1000, true), 0b1001);
    assert_eq!(with_flag(0b1001, 0b1000, false), 0b0001);
    assert!(flag_clear(0b0001, 0b1000));
    assert!(!flag_clear(0b1001, 0b1000));
}
