use ramdisk::lifecycle::{
    mount_op, remount_op, start, step, unmount_op, Action, Event, Phase,
};
use ramdisk::table::upsert_entry;
use ramdisk::{MountConfig, MountType, RamdiskError, RemountConfig, UnmountConfig};

fn mount(fs: MountType, target: &str, persist: bool) -> ramdisk::lifecycle::LifecycleOp {
    mount_op(
        MountConfig {
            fs,
            target: target.to_string(),
        },
        persist,
        "/etc/fstab".to_string(),
    )
}

#[test]
fn mount_without_persist_finishes_after_the_mount() {
    let op = mount(MountType::Tmpfs, "target/", false);
    let (phase, action) = start(&op);
    match &action {
        Action::DoMount { fs, target } => {
            assert_eq!(*fs, MountType::Tmpfs);
            assert_eq!(target, "target/");
        }
        _ => panic!("expected a mount action"),
    }
    let (phase, action) = step(&op, &phase, &Event::MountDone);
    assert!(action.is_none());
    assert!(matches!(phase, Phase::Finished(Ok(()))));
}

#[test]
fn mount_with_persist_upserts_the_table_entry() {
    let op = mount(MountType::Ramfs, "./build", true);
    let (phase, _) = start(&op);
    let (phase, action) = step(&op, &phase, &Event::MountDone);
    assert!(matches!(phase, Phase::AwaitingTable));
    match action {
        Some(Action::DoUpsert { table_path, entry }) => {
            assert_eq!(table_path, "/etc/fstab");
            assert_eq!(entry.fs, MountType::Ramfs);
            assert_eq!(entry.target, b"./build".to_vec());
            assert_eq!(entry.options, b"defaults".to_vec());
            let table = upsert_entry(b"", &entry);
            assert_eq!(table, b"ramfs ./build ramfs defaults 0 0\n".to_vec());
        }
        _ => panic!("expected a table upsert"),
    }
    let (phase, action) = step(&op, &phase, &Event::TableDone);
    assert!(action.is_none());
    assert!(matches!(phase, Phase::Finished(Ok(()))));
}

#[test]
fn mount_on_missing_target_reports_target_not_found() {
    let op = mount(MountType::Tmpfs, "./nowhere", false);
    let (phase, _) = start(&op);
    let (phase, action) = step(&op, &phase, &Event::MountTargetMissing);
    assert!(action.is_none());
    assert!(matches!(
        phase,
        Phase::Finished(Err(RamdiskError::TargetNotFound))
    ));
}

#[test]
fn mount_failure_carries_the_os_error() {
    let op = mount(MountType::Tmpfs, "target/", false);
    let (phase, _) = start(&op);
    let (phase, _) = step(&op, &phase, &Event::MountFailed(1));
    assert!(matches!(
        phase,
        Phase::Finished(Err(RamdiskError::MountFailed(1)))
    ));
}

#[test]
fn table_edit_failure_after_mount_is_surfaced() {
    let op = mount(MountType::Tmpfs, "target/", true);
    let (phase, _) = start(&op);
    let (phase, _) = step(&op, &phase, &Event::MountDone);
    let (phase, action) = step(&op, &phase, &Event::TableWriteFailed);
    assert!(action.is_none());
    assert!(matches!(
        phase,
        Phase::Finished(Err(RamdiskError::TableWriteFailed))
    ));
    let op = mount(MountType::Tmpfs, "target/", true);
    let (phase, _) = start(&op);
    let (phase, _) = step(&op, &phase, &Event::MountDone);
    let (phase, _) = step(&op, &phase, &Event::TableReadFailed);
    assert!(matches!(
        phase,
        Phase::Finished(Err(RamdiskError::TableReadFailed))
    ));
}

#[test]
fn remount_on_unmounted_target_proceeds_to_mount() {
    let op = remount_op(
        RemountConfig {
            fs: MountType::Ramfs,
            target: "/t".to_string(),
        },
        false,
        "/etc/fstab".to_string(),
    );
    let (phase, action) = start(&op);
    assert!(matches!(phase, Phase::AwaitingUnmount));
    assert!(matches!(action, Action::DoUnmount { .. }));
    let (phase, action) = step(&op, &phase, &Event::UnmountNotMounted(22));
    assert!(matches!(phase, Phase::AwaitingMount));
    match action {
        Some(Action::DoMount { fs, target }) => {
            assert_eq!(fs, MountType::Ramfs);
            assert_eq!(target, "/t");
        }
        _ => panic!("expected a mount action"),
    }
    let (phase, action) = step(&op, &phase, &Event::MountDone);
    assert!(action.is_none());
    assert!(matches!(phase, Phase::Finished(Ok(()))));
}

#[test]
fn remount_after_clean_unmount_proceeds_to_mount() {
    let op = remount_op(
        RemountConfig {
            fs: MountType::Tmpfs,
            target: "target".to_string(),
        },
        false,
        "/etc/fstab".to_string(),
    );
    let (phase, _) = start(&op);
    let (phase, action) = step(&op, &phase, &Event::UnmountDone);
    assert!(matches!(phase, Phase::AwaitingMount));
    assert!(matches!(action, Some(Action::DoMount { .. })));
}

#[test]
fn remount_aborts_when_the_unmount_fails_otherwise() {
    let op = remount_op(
        RemountConfig {
            fs: MountType::Tmpfs,
            target: "target".to_string(),
        },
        false,
        "/etc/fstab".to_string(),
    );
    let (phase, _) = start(&op);
    let (phase, action) = step(&op, &phase, &Event::UnmountFailed(16));
    assert!(action.is_none(), "no mount may be attempted");
    assert!(matches!(
        phase,
        Phase::Finished(Err(RamdiskError::UnmountFailed(16)))
    ));
}

#[test]
fn unmount_without_removal_leaves_the_table_alone() {
    let op = unmount_op(
        UnmountConfig {
            target: "./build".to_string(),
        },
        false,
        "/etc/fstab".to_string(),
    );
    let (phase, action) = start(&op);
    assert!(matches!(action, Action::DoUnmount { .. }));
    let (phase, action) = step(&op, &phase, &Event::UnmountDone);
    assert!(action.is_none());
    assert!(matches!(phase, Phase::Finished(Ok(()))));
}

#[test]
fn unmount_with_removal_asks_for_the_table_edit() {
    let op = unmount_op(
        UnmountConfig {
            target: "./build".to_string(),
        },
        true,
        "/etc/fstab".to_string(),
    );
    let (phase, _) = start(&op);
    let (phase, action) = step(&op, &phase, &Event::UnmountDone);
    assert!(matches!(phase, Phase::AwaitingTable));
    match action {
        Some(Action::DoRemove { table_path, target }) => {
            assert_eq!(table_path, "/etc/fstab");
            assert_eq!(target, "./build");
        }
        _ => panic!("expected a table removal"),
    }
    let (phase, _) = step(&op, &phase, &Event::TableDone);
    assert!(matches!(phase, Phase::Finished(Ok(()))));
}

#[test]
fn unmount_of_a_not_mounted_target_is_an_error() {
    let op = unmount_op(
        UnmountConfig {
            target: "target".to_string(),
        },
        false,
        "/etc/fstab".to_string(),
    );
    let (phase, _) = start(&op);
    let (phase, _) = step(&op, &phase, &Event::UnmountNotMounted(22));
    assert!(matches!(
        phase,
        Phase::Finished(Err(RamdiskError::UnmountFailed(22)))
    ));
}

#[test]
fn unmount_busy_is_an_error() {
    let op = unmount_op(
        UnmountConfig {
            target: "target".to_string(),
        },
        false,
        "/etc/fstab".to_string(),
    );
    let (phase, _) = start(&op);
    let (phase, _) = step(&op, &phase, &Event::UnmountFailed(16));
    assert!(matches!(
        phase,
        Phase::Finished(Err(RamdiskError::UnmountFailed(16)))
    ));
}
