use ramdisk::lifecycle::{mount_op, start, step, unmount_op, Action, Event, Phase};
use ramdisk::table::upsert_entry;
use ramdisk::{CargoRamdiskConfig, MountConfig, MountType, RamdiskError, RemountConfig, UnmountConfig};

/// Mount then unmount on the same target, neither persisting nor removing:
/// no step of either operation asks for a table edit, so an untouched table
/// file stays byte-identical.
#[test]
fn mount_then_unmount_without_persist_never_touches_the_table() {
    let table = b"proc /proc proc defaults 0 0\n".to_vec();

    let op = mount_op(
        MountConfig {
            fs: MountType::Tmpfs,
            target: "target/".to_string(),
        },
        false,
        "/etc/fstab".to_string(),
    );
    let (phase, action) = start(&op);
    assert!(matches!(action, Action::DoMount { .. }));
    let (phase, action) = step(&op, &phase, &Event::MountDone);
    assert!(action.is_none());
    assert!(matches!(phase, Phase::Finished(Ok(()))));

    let op = unmount_op(
        UnmountConfig {
            target: "target/".to_string(),
        },
        false,
        "/etc/fstab".to_string(),
    );
    let (phase, action) = start(&op);
    assert!(matches!(action, Action::DoUnmount { .. }));
    let (phase, action) = step(&op, &phase, &Event::UnmountDone);
    assert!(action.is_none());
    assert!(matches!(phase, Phase::Finished(Ok(()))));

    // Neither operation produced a table action, so the file is untouched.
    assert_eq!(table, b"proc /proc proc defaults 0 0\n".to_vec());
}

/// A persisted ramfs mount at ./build writes the conventional table line;
/// a later unmount that does not ask for removal leaves that line in
/// place.
#[test]
fn persisted_mount_then_plain_unmount_keeps_the_stale_entry() {
    let mut table = b"proc /proc proc defaults 0 0\n".to_vec();

    let op = mount_op(
        MountConfig {
            fs: MountType::Ramfs,
            target: "./build".to_string(),
        },
        true,
        "/etc/fstab".to_string(),
    );
    let (phase, _) = start(&op);
    let (phase, action) = step(&op, &phase, &Event::MountDone);
    match action {
        Some(Action::DoUpsert { entry, .. }) => {
            table = upsert_entry(&table, &entry);
        }
        _ => panic!("expected a table upsert"),
    }
    let (phase, _) = step(&op, &phase, &Event::TableDone);
    assert!(matches!(phase, Phase::Finished(Ok(()))));
    assert_eq!(
        table,
        b"proc /proc proc defaults 0 0\nramfs ./build ramfs defaults 0 0\n".to_vec()
    );

    let op = unmount_op(
        UnmountConfig {
            target: "./build".to_string(),
        },
        false,
        "/etc/fstab".to_string(),
    );
    let (phase, action) = start(&op);
    assert!(matches!(action, Action::DoUnmount { .. }));
    let (phase, action) = step(&op, &phase, &Event::UnmountDone);
    assert!(action.is_none());
    assert!(matches!(phase, Phase::Finished(Ok(()))));

    // Removal was not requested: the entry is still there.
    assert_eq!(
        table,
        b"proc /proc proc defaults 0 0\nramfs ./build ramfs defaults 0 0\n".to_vec()
    );
}

#[test]
fn top_level_config_converts_to_a_mount() {
    let conf = CargoRamdiskConfig {
        fs: MountType::Tmpfs,
        target: "target/".to_string(),
        save_fstab: false,
        fstab_location: "/etc/fstab".to_string(),
        subcommand: None,
    };
    let m = MountConfig::from(conf);
    assert_eq!(m.fs, MountType::Tmpfs);
    assert_eq!(m.target, "target/");
}

#[test]
fn remount_config_converts_to_its_two_halves() {
    let r = RemountConfig {
        fs: MountType::Ramfs,
        target: "target".to_string(),
    };
    let m = MountConfig::from(&r);
    assert_eq!(m.fs, MountType::Ramfs);
    assert_eq!(m.target, "target");
    let u = UnmountConfig::from(&r);
    assert_eq!(u.target, "target");
}

#[test]
fn error_messages_name_the_failure() {
    assert_eq!(
        RamdiskError::TargetNotFound.message(),
        "The target directory does not exist"
    );
    assert_eq!(
        RamdiskError::MountFailed(13).message(),
        "The mount operation failed"
    );
    assert_eq!(
        RamdiskError::UnmountFailed(16).message(),
        "The unmount operation failed"
    );
    assert_eq!(
        RamdiskError::TableReadFailed.message(),
        "The mount table file could not be read"
    );
    assert_eq!(
        RamdiskError::TableWriteFailed.message(),
        "The mount table file could not be written"
    );
}
