use sysctl::entry::{Entry, EntryType};
use sysctl::mib::Mib;
use sysctl::walker::{MibIter, SeekStep, Step};

fn e(path: &str, kind: EntryType) -> Entry {
    Entry::new(path.to_string(), kind)
}

// A small store: the listing of each container, in listing order.
fn listing(path: &str) -> Vec<Entry> {
    match path {
        "/proc/sys" => vec![
            e("/proc/sys/kernel", EntryType::Container),
            e("/proc/sys/vm", EntryType::Container),
            e("/proc/sys/top", EntryType::Leaf),
        ],
        "/proc/sys/kernel" => vec![
            e("/proc/sys/kernel/ostype", EntryType::Leaf),
            e("/proc/sys/kernel/random", EntryType::Container),
            e("/proc/sys/kernel/osrelease", EntryType::Leaf),
        ],
        "/proc/sys/kernel/random" => vec![e("/proc/sys/kernel/random/uuid", EntryType::Leaf)],
        "/proc/sys/vm" => vec![],
        "/proc/sys/bad" => vec![e("/proc/sys/bad/link", EntryType::Unsupported)],
        _ => vec![],
    }
}

fn preorder(path: &str, out: &mut Vec<String>) {
    for en in listing(path) {
        match en.kind {
            EntryType::Container => preorder(&en.path, out),
            EntryType::Leaf => out.push(en.path.clone()),
            EntryType::Unsupported => panic!("unsupported entry"),
        }
    }
}

fn drain(w: &mut MibIter) -> Vec<String> {
    let mut out = Vec::new();
    loop {
        match w.next_step() {
            Step::Exhausted => return out,
            Step::Open(p) => w.enter(listing(&p)),
            Step::Yield(p) => out.push(p),
            Step::Fail(p) => panic!("unsupported entry {}", p),
        }
    }
}

fn seek(w: &mut MibIter) -> bool {
    loop {
        match w.seek_step() {
            SeekStep::NotFound => return false,
            SeekStep::Skipped => {}
            SeekStep::Found => return true,
            SeekStep::Open(p) => w.enter(listing(&p)),
            SeekStep::OpenTarget(p) => {
                w.enter(listing(&p));
                return true;
            }
            SeekStep::Fail(p) => panic!("unsupported entry {}", p),
        }
    }
}

fn full() -> Vec<String> {
    let mut out = Vec::new();
    preorder("/proc/sys", &mut out);
    out
}

#[test]
fn full_enumeration_is_preorder() {
    let mut w = MibIter::new(listing("/proc/sys"), "/proc/sys");
    let got = drain(&mut w);
    assert_eq!(
        got,
        vec![
            "/proc/sys/kernel/ostype",
            "/proc/sys/kernel/random/uuid",
            "/proc/sys/kernel/osrelease",
            "/proc/sys/top",
        ]
    );
    assert_eq!(got, full());
}

#[test]
fn seek_to_leaf_resumes_after_it() {
    let all = full();
    for (i, p) in all.iter().enumerate() {
        let mut w = MibIter::new(listing("/proc/sys"), p);
        assert!(seek(&mut w));
        assert_eq!(drain(&mut w), all[i + 1..].to_vec());
    }
}

#[test]
fn seek_to_container_starts_inside_it() {
    let mut w = MibIter::new(listing("/proc/sys"), "/proc/sys/kernel/random");
    assert!(seek(&mut w));
    assert_eq!(drain(&mut w), vec!["/proc/sys/kernel/random/uuid", "/proc/sys/kernel/osrelease", "/proc/sys/top"]);
    let mut k = MibIter::new(listing("/proc/sys"), "/proc/sys/kernel");
    assert!(seek(&mut k));
    assert_eq!(drain(&mut k), full());
}

#[test]
fn seek_to_absent_path_is_empty() {
    let mut w = MibIter::new(listing("/proc/sys"), "/proc/sys/nothing");
    assert!(!seek(&mut w));
    assert!(w.is_exhausted());
    assert!(matches!(w.next_step(), Step::Exhausted));
}

#[test]
fn exhausted_stays_exhausted() {
    let mut w = MibIter::new(listing("/proc/sys"), "/proc/sys");
    drain(&mut w);
    for _ in 0..3 {
        assert!(w.is_exhausted());
        assert!(matches!(w.next_step(), Step::Exhausted));
    }
}

#[test]
fn empty_containers_are_passed_over() {
    let mut w = MibIter::new(vec![e("/proc/sys/vm", EntryType::Container), e("/proc/sys/top", EntryType::Leaf)], "/proc/sys");
    assert!(!w.is_exhausted());
    assert_eq!(drain(&mut w), vec!["/proc/sys/top"]);
}

#[test]
fn unsupported_entry_fails_the_step() {
    let mut w = MibIter::new(vec![e("/proc/sys/bad", EntryType::Container)], "/proc/sys");
    assert!(matches!(w.next_step(), Step::Open(ref p) if p == "/proc/sys/bad"));
    w.enter(listing("/proc/sys/bad"));
    assert!(matches!(w.next_step(), Step::Fail(ref p) if p == "/proc/sys/bad/link"));
}

#[test]
fn kernel_ostype_scenario() {
    let root = vec![e("/proc/sys/kernel", EntryType::Container)];
    let kernel = vec![
        e("/proc/sys/kernel/ostype", EntryType::Leaf),
        e("/proc/sys/kernel/osrelease", EntryType::Leaf),
    ];
    let m = Mib::from_canonical("/proc/sys/kernel/ostype".to_string()).unwrap();
    let mut w = m.iter(root);
    assert!(matches!(w.seek_step(), SeekStep::Open(ref p) if p == "/proc/sys/kernel"));
    w.enter(kernel);
    assert!(matches!(w.seek_step(), SeekStep::Found));
    match w.next_step() {
        Step::Yield(p) => {
            let n = Mib::from_canonical(p).unwrap();
            assert_eq!(n.name().unwrap(), "kernel.osrelease");
        }
        other => panic!("unexpected step {:?}", other),
    }
    assert!(matches!(w.next_step(), Step::Exhausted));
}

#[test]
fn kernel_ostype_listed_last_gives_nothing() {
    let root = vec![e("/proc/sys/kernel", EntryType::Container)];
    let kernel = vec![
        e("/proc/sys/kernel/osrelease", EntryType::Leaf),
        e("/proc/sys/kernel/ostype", EntryType::Leaf),
    ];
    let m = Mib::from_canonical("/proc/sys/kernel/ostype".to_string()).unwrap();
    let mut w = m.iter(root);
    assert!(matches!(w.seek_step(), SeekStep::Open(_)));
    w.enter(kernel);
    assert!(matches!(w.seek_step(), SeekStep::Skipped));
    assert!(matches!(w.seek_step(), SeekStep::Found));
    assert!(matches!(w.next_step(), Step::Exhausted));
}
