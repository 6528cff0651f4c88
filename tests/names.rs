use sysctl::error::MibError;
use sysctl::kind::{lookup_kind, str_eq, Kind};
use sysctl::names::{has_prefix, to_candidate, to_name, PATH_PREFIX, ROOT_PATH};

#[test]
fn name_of_leaf_path() {
    assert_eq!(to_name("/proc/sys/kernel/ostype").unwrap(), "kernel.ostype");
}

#[test]
fn name_of_root_is_empty() {
    assert_eq!(to_name(PATH_PREFIX).unwrap(), "");
}

#[test]
fn name_outside_root_is_not_found() {
    assert_eq!(to_name("/etc/passwd"), Err(MibError::NotFound));
    assert_eq!(to_name("/proc/sysfoo/a"), Err(MibError::NotFound));
    assert_eq!(to_name("/proc"), Err(MibError::NotFound));
}

#[test]
fn candidate_of_dotted_name() {
    assert_eq!(to_candidate("kernel.ostype").unwrap(), "/proc/sys/kernel/ostype");
    assert_eq!(to_candidate("net.ipv4.ip_forward").unwrap(), "/proc/sys/net/ipv4/ip_forward");
}

#[test]
fn candidate_of_path_under_root_is_kept() {
    assert_eq!(to_candidate(ROOT_PATH).unwrap(), ROOT_PATH);
    assert_eq!(to_candidate("/proc/sys/vm/swappiness").unwrap(), "/proc/sys/vm/swappiness");
}

#[test]
fn candidate_of_root_path_is_not_found() {
    assert_eq!(to_candidate("/proc/sys"), Err(MibError::NotFound));
    assert_eq!(to_candidate("/proc/sys/proc/sys").unwrap(), "/proc/sys/proc/sys");
}

#[test]
fn candidate_of_absolute_name_is_not_joined() {
    assert_eq!(to_candidate(".etc.passwd").unwrap(), "/etc/passwd");
}

#[test]
fn name_round_trip() {
    for n in ["kernel.ostype", "vm.swappiness", "net.ipv4.conf.all.forwarding"] {
        let p = to_candidate(n).unwrap();
        assert_eq!(to_name(&p).unwrap(), n);
    }
}

#[test]
fn prefix_and_suffix() {
    assert!(has_prefix("/proc/sys/kernel", "/proc/sys"));
    assert!(!has_prefix("/proc", "/proc/sys"));
    assert!(str_eq("abc", "abc"));
    assert!(!str_eq("abc", "abd"));
    assert!(!str_eq("abc", "ab"));
}

#[test]
fn kind_table_lookup() {
    assert_eq!(lookup_kind("kernel"), Kind::Node);
    assert_eq!(lookup_kind("kernel.ostype"), Kind::I32);
    assert_eq!(lookup_kind("kernel.version"), Kind::I32);
    assert_eq!(lookup_kind("kernel.osrelease"), Kind::String);
    assert_eq!(lookup_kind("kernel.os"), Kind::Unknow);
    assert_eq!(lookup_kind(""), Kind::Unknow);
}
