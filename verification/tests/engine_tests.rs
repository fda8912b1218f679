use gnos::GnosError;
use gnos::capability::Operation;
use gnos::config::SecurityConfig;
use gnos::engine::GnosFileSystem;
use gnos::engine::read_window;
use gnos::inode::InodeManager;
use gnos::manager::CapabilityManager;
use gnos::registry::DriverEntry;
use gnos::registry::DriverRegistry;

fn filesystem() -> GnosFileSystem {
    let mut registry = DriverRegistry::new();
    registry.register(DriverEntry {
        name: String::from("ai"),
        prefix: String::from("/proc/"),
    });
    registry.register(DriverEntry {
        name: String::from("cloud"),
        prefix: String::from("/cloud/"),
    });
    registry.register(DriverEntry {
        name: String::from("http"),
        prefix: String::from("/net/"),
    });
    let manager = CapabilityManager::new(SecurityConfig::default());
    GnosFileSystem::new(registry, manager, 1000)
}

#[test]
fn reused_identifier_rebinds_path() {
    let mut im = InodeManager::new();
    im.create_file(10, String::from("/a"), 5);
    im.create_file(10, String::from("/b"), 6);
    assert_eq!(im.get(10).unwrap().path, "/b");
    assert_eq!(im.find_by_path("/a"), None);
    assert_eq!(im.find_by_path("/b"), Some(10));
}

#[test]
fn inode_records_carry_attributes() {
    let mut im = InodeManager::new();
    im.create_directory(1, String::from("/d"), 7);
    im.create_file(2, String::from("/d/f"), 8);
    let d = im.get(1).unwrap();
    assert!(d.is_dir);
    assert_eq!(d.size, 4096);
    assert_eq!(d.permissions, 0o755);
    assert_eq!(d.mtime, 7);
    let f = im.get(2).unwrap();
    assert!(!f.is_dir);
    assert_eq!(f.size, 0);
    assert_eq!(f.permissions, 0o644);
    assert_eq!(im.get(3), None);
}

#[test]
fn registry_selects_first_match_deterministically() {
    let mut registry = DriverRegistry::new();
    registry.register(DriverEntry {
        name: String::from("broad"),
        prefix: String::from("/cloud/"),
    });
    registry.register(DriverEntry {
        name: String::from("narrow"),
        prefix: String::from("/cloud/aws"),
    });
    assert_eq!(registry.count(), 2);
    for _ in 0..3 {
        let d = registry.get_driver("/cloud/aws/bucket").unwrap();
        assert_eq!(d.name, "broad");
        assert!(d.supports("/cloud/aws/bucket"));
    }
    assert!(registry.get_driver("/elsewhere").is_none());
}

#[test]
fn lookup_resolves_seeded_hierarchy() {
    let fs = filesystem();
    let attr = fs.lookup(1, "proc", 2000).unwrap();
    assert_eq!(attr.ino, 2);
    assert!(attr.is_dir);
    assert_eq!(attr.nlink, 2);
    let attr = fs.lookup(2, "llama3", 2000).unwrap();
    assert_eq!(attr.ino, 10);
    assert!(!attr.is_dir);
    assert_eq!(attr.nlink, 1);
    assert!(matches!(
        fs.lookup(1, "nothing", 2000),
        Err(GnosError::PathNotFound(_))
    ));
    assert!(matches!(
        fs.lookup(99, "proc", 2000),
        Err(GnosError::PathNotFound(_))
    ));
}

#[test]
fn getattr_synthesizes_fixed_fields() {
    let fs = filesystem();
    let attr = fs.get_file_attr(1, 1234).unwrap();
    assert_eq!(attr.ino, 1);
    assert_eq!(attr.size, 4096);
    assert_eq!(attr.blocks, 8);
    assert_eq!(attr.atime, 1234);
    assert_eq!(attr.uid, 1000);
    assert_eq!(attr.gid, 1000);
    assert_eq!(attr.blksize, 4096);
    assert!(matches!(
        fs.get_file_attr(42, 1234),
        Err(GnosError::PathNotFound(_))
    ));
}

#[test]
fn readdir_is_table_driven() {
    let fs = filesystem();
    let root = fs.readdir(1, 0);
    let names: Vec<&str> = root.iter().map(|(n, _)| n.as_str()).collect();
    assert_eq!(names, vec!["proc", "cloud", "net", "dev"]);
    assert_eq!(root[0].1, 2);
    assert_eq!(root[3].1, 5);

    let tail = fs.readdir(1, 2);
    let names: Vec<&str> = tail.iter().map(|(n, _)| n.as_str()).collect();
    assert_eq!(names, vec!["net", "dev"]);

    assert_eq!(fs.readdir(1, 9).len(), 0);
    assert_eq!(fs.readdir(3, 0).len(), 3);
    assert_eq!(fs.readdir(77, 0).len(), 0);
}

#[test]
fn open_allocates_monotonic_handles() {
    let mut fs = filesystem();
    let fh1 = fs.open(10).unwrap();
    let fh2 = fs.open(10).unwrap();
    assert_eq!(fh1, 1);
    assert_eq!(fh2, 2);
    fs.release(fh1);
    // a released handle value is never reused
    let fh3 = fs.open(10).unwrap();
    assert_eq!(fh3, 3);
    // directories and unknown identifiers cannot be opened
    assert!(matches!(fs.open(1), Err(GnosError::PathNotFound(_))));
    assert!(matches!(fs.open(404), Err(GnosError::PathNotFound(_))));
}

#[test]
fn access_plan_authorizes_and_routes() {
    let mut fs = filesystem();
    fs.capability_manager
        .grant_capability(String::from("/proc"), 0b110, String::from("alice"), 3600, 1000)
        .unwrap();
    let fh = fs.open(10).unwrap();
    let plan = fs.access_plan(fh, Operation::Read, None, 1500).unwrap();
    assert_eq!(plan.path, "/proc/llama3");
    assert_eq!(plan.driver_name, "ai");
    let plan = fs.access_plan(fh, Operation::Write, None, 1500).unwrap();
    assert_eq!(plan.driver_name, "ai");
}

#[test]
fn access_plan_denies_without_capability() {
    let mut fs = filesystem();
    let fh = fs.open(10).unwrap();
    let err = fs.access_plan(fh, Operation::Read, None, 1500).unwrap_err();
    match err {
        GnosError::PermissionDenied(m) => assert_eq!(m, "no valid capability found"),
        _ => panic!("wrong error variant"),
    }
    // exactly one audit entry, a failure
    let log = fs.capability_manager.get_audit_log();
    assert_eq!(log.len(), 1);
    assert!(!log[0].success);
    assert_eq!(log[0].path, "/proc/llama3");
}

#[test]
fn access_plan_rejects_unknown_handle() {
    let mut fs = filesystem();
    assert!(matches!(
        fs.access_plan(99, Operation::Read, None, 1500),
        Err(GnosError::ResourceBusy(_))
    ));
    // nothing was audited for a bad handle
    assert_eq!(fs.capability_manager.get_audit_log().len(), 0);
}

#[test]
fn access_plan_reports_missing_backend() {
    let registry = DriverRegistry::new();
    let manager = CapabilityManager::new(SecurityConfig::default());
    let mut fs = GnosFileSystem::new(registry, manager, 1000);
    fs.capability_manager
        .grant_capability(String::from("/proc"), 0b100, String::from("o"), 3600, 1000)
        .unwrap();
    let fh = fs.open(10).unwrap();
    assert!(matches!(
        fs.access_plan(fh, Operation::Read, None, 1500),
        Err(GnosError::Driver(_))
    ));
}

#[test]
fn released_handle_is_rejected() {
    let mut fs = filesystem();
    let fh = fs.open(10).unwrap();
    fs.release(fh);
    assert!(matches!(
        fs.access_plan(fh, Operation::Read, None, 1500),
        Err(GnosError::ResourceBusy(_))
    ));
}

#[test]
fn read_window_slices() {
    let data = b"hello world";
    assert_eq!(read_window(data, 0, 5), b"hello".to_vec());
    assert_eq!(read_window(data, 6, 5), b"world".to_vec());
    assert_eq!(read_window(data, 6, 100), b"world".to_vec());
    assert_eq!(read_window(data, 11, 4), Vec::<u8>::new());
    assert_eq!(read_window(data, 100, 4), Vec::<u8>::new());
    assert_eq!(read_window(data, 0, 0), Vec::<u8>::new());
}
