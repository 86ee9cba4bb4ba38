use realm::instance::default_auto_start;
use realm::instance::persisted_status;
use realm::instance::restored_status;
use realm::instance::temp_path;
use realm::instance::timestamp;
use realm::instance::validate_instance_id;
use realm::instance::InstanceStatus;
use realm::instance::PersistFormat;
use realm::instance::PersistenceMode;

#[test]
fn ids_are_validated() {
    assert!(validate_instance_id("fixed-id").is_ok());
    assert!(validate_instance_id("a").is_ok());
    assert!(validate_instance_id(&"x".repeat(256)).is_ok());
    // 256 characters, more bytes
    assert!(validate_instance_id(&"é".repeat(256)).is_ok());
    assert_eq!(validate_instance_id("").unwrap_err(), "id must not be empty");
    assert_eq!(validate_instance_id(&"x".repeat(257)).unwrap_err(), "id too long (max 256)");
    assert_eq!(validate_instance_id("a b").unwrap_err(), "id must not contain whitespace");
    assert_eq!(validate_instance_id(" a").unwrap_err(), "id must not contain whitespace");
    assert_eq!(validate_instance_id("a\t").unwrap_err(), "id must not contain whitespace");
    assert_eq!(validate_instance_id("a\u{3000}b").unwrap_err(), "id must not contain whitespace");
    assert_eq!(validate_instance_id("a/b").unwrap_err(), "id must not contain path separators");
    assert_eq!(validate_instance_id("a\\b").unwrap_err(), "id must not contain path separators");
    // whitespace is named before a separator
    assert_eq!(validate_instance_id("/ ").unwrap_err(), "id must not contain whitespace");
}

#[test]
fn a_status_is_written_and_restored() {
    assert_eq!(persisted_status(&InstanceStatus::Running), "Running");
    assert_eq!(persisted_status(&InstanceStatus::Stopped), "Stopped");
    assert_eq!(
        persisted_status(&InstanceStatus::Failed("bind failed: address in use".to_string())),
        "Failed(bind failed: address in use)"
    );
    assert!(matches!(restored_status("Running"), InstanceStatus::Stopped));
    assert!(matches!(restored_status("Stopped"), InstanceStatus::Stopped));
    assert!(matches!(restored_status("anything"), InstanceStatus::Stopped));
    assert!(matches!(restored_status(""), InstanceStatus::Stopped));
    assert!(matches!(restored_status("Failed"), InstanceStatus::Stopped));
    match restored_status("Failed(bind failed: address in use)") {
        InstanceStatus::Failed(why) => assert_eq!(why, "bind failed: address in use"),
        other => panic!("unexpected {:?}", other),
    }
    match restored_status("Failed(a (b))") {
        InstanceStatus::Failed(why) => assert_eq!(why, "a (b)"),
        other => panic!("unexpected {:?}", other),
    }
    match restored_status("Failed()") {
        InstanceStatus::Failed(why) => assert_eq!(why, ""),
        other => panic!("unexpected {:?}", other),
    }
    for broken in ["Failed(", "Failed(oops"] {
        match restored_status(broken) {
            InstanceStatus::Failed(why) => assert_eq!(why, "Unknown error"),
            other => panic!("unexpected {:?}", other),
        }
    }
    // what is written is restored
    let written = persisted_status(&InstanceStatus::Failed("oops".to_string()));
    assert!(matches!(restored_status(&written), InstanceStatus::Failed(w) if w == "oops"));
}

#[test]
fn the_format_follows_the_extension() {
    assert_eq!(PersistFormat::from_path("realm.toml"), PersistFormat::Toml);
    assert_eq!(PersistFormat::from_path("/etc/realm/conf.TOML"), PersistFormat::Toml);
    assert_eq!(PersistFormat::from_path("a.b.ToMl"), PersistFormat::Toml);
    assert_eq!(PersistFormat::from_path("./instances/realm.json"), PersistFormat::Json);
    assert_eq!(PersistFormat::from_path("realm"), PersistFormat::Json);
    assert_eq!(PersistFormat::from_path(""), PersistFormat::Json);
    assert_eq!(PersistFormat::from_path("realm.toml.bak"), PersistFormat::Json);
    assert_eq!(PersistFormat::from_path("realm.tomll"), PersistFormat::Json);
    assert_eq!(PersistFormat::from_path("toml"), PersistFormat::Json);
    // a leading dot makes a hidden file, not an extension
    assert_eq!(PersistFormat::from_path(".toml"), PersistFormat::Json);
    assert_eq!(PersistFormat::from_path("dir/.toml"), PersistFormat::Json);
    assert_eq!(PersistFormat::from_path("dir.toml/file"), PersistFormat::Json);
    assert_eq!(PersistFormat::from_path("dir/x.toml"), PersistFormat::Toml);
}

#[test]
fn where_instances_are_persisted() {
    let m = PersistenceMode::select(Some("conf.toml".to_string()), Some("ignored.json".to_string()));
    assert!(matches!(&m, PersistenceMode::Hybrid { config_file, format: PersistFormat::Toml } if config_file == "conf.toml"));
    assert_eq!(m.path(), "conf.toml");
    assert_eq!(m.format(), PersistFormat::Toml);
    let m = PersistenceMode::select(None, Some("/var/lib/realm/store.toml".to_string()));
    assert!(matches!(&m, PersistenceMode::SelfManaged { storage_path, format: PersistFormat::Toml } if storage_path == "/var/lib/realm/store.toml"));
    let m = PersistenceMode::select(None, None);
    assert_eq!(m.path(), "./instances/realm.json");
    assert_eq!(m.format(), PersistFormat::Json);
    assert_eq!(temp_path("a/b.toml"), "a/b.toml.tmp");
}

#[test]
fn small_things() {
    assert!(default_auto_start());
    let t = timestamp();
    // an RFC 3339 stamp: date, `T`, time
    assert!(t.len() >= 20);
    assert_eq!(&t[4..5], "-");
    assert_eq!(&t[10..11], "T");
}

#[test]
fn the_format_passes_over_what_follows_the_name() {
    assert_eq!(PersistFormat::from_path("x.toml/"), PersistFormat::Toml);
    assert_eq!(PersistFormat::from_path("dir/x.TOML///"), PersistFormat::Toml);
    assert_eq!(PersistFormat::from_path("x.toml/."), PersistFormat::Toml);
    assert_eq!(PersistFormat::from_path("x.toml/.//./"), PersistFormat::Toml);
    assert_eq!(PersistFormat::from_path("x.toml/.."), PersistFormat::Json);
    assert_eq!(PersistFormat::from_path("x.toml/y/"), PersistFormat::Json);
    assert_eq!(PersistFormat::from_path(".toml/"), PersistFormat::Json);
    assert_eq!(PersistFormat::from_path("/"), PersistFormat::Json);
    assert_eq!(PersistFormat::from_path("."), PersistFormat::Json);
    assert_eq!(PersistFormat::from_path(".."), PersistFormat::Json);
    assert_eq!(PersistFormat::from_path("./"), PersistFormat::Json);
    assert_eq!(PersistFormat::from_path("..toml"), PersistFormat::Toml);
}

#[test]
fn the_format_is_that_of_the_extension_of_a_path() {
    let paths = [
        "", ".", "..", "/", "./", "a", "a.", "a..", ".a", "..a", "a.toml", "a.toml/", "a.toml//",
        "a.toml/.", "a.toml/./", "a.toml/..", "a.toml/../", "a.toml/b", ".toml", "..toml",
        "/.toml", "/a.toml", "./a.toml", "./.toml", "a/.toml/", "a.b.toml", "a.toml.b", "a.Toml",
        "a.TOML/./.", "a .toml", "toml", "a/toml", "a.toml.", "a.tomI", "a/b.toml/./c",
        "x/./y.toml", "x/../y.toml", "...toml", "a./.toml", "//a.toml//.//", "a.toml/.b", "./.",
    ];
    for path in paths {
        let toml = std::path::Path::new(path)
            .extension()
            .is_some_and(|ext| ext.eq_ignore_ascii_case("toml"));
        let expected = if toml { PersistFormat::Toml } else { PersistFormat::Json };
        assert_eq!(PersistFormat::from_path(path), expected, "{path:?}");
    }
}
