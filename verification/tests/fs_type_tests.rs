use ramdisk::{MountType, RamdiskError};

#[test]
fn parse_tmpfs_lower() {
    assert!(matches!(MountType::from_str("tmpfs"), Ok(MountType::Tmpfs)));
}

#[test]
fn parse_tmpfs_upper() {
    assert!(matches!(MountType::from_str("TMPFS"), Ok(MountType::Tmpfs)));
}

#[test]
fn parse_tmpfs_mixed_case() {
    assert!(matches!(MountType::from_str("TmPfS"), Ok(MountType::Tmpfs)));
}

#[test]
fn parse_ramfs_lower() {
    assert!(matches!(MountType::from_str("ramfs"), Ok(MountType::Ramfs)));
}

#[test]
fn parse_ramfs_mixed_case() {
    assert!(matches!(MountType::from_str("RamFS"), Ok(MountType::Ramfs)));
}

#[test]
fn parse_unknown_fs_is_rejected() {
    match MountType::from_str("ext4") {
        Err(RamdiskError::InvalidFsType(s)) => assert_eq!(s, "ext4"),
        _ => panic!("expected InvalidFsType"),
    }
}

#[test]
fn parse_empty_string_is_rejected() {
    assert!(matches!(
        MountType::from_str(""),
        Err(RamdiskError::InvalidFsType(_))
    ));
}

#[test]
fn parse_near_miss_is_rejected() {
    assert!(matches!(
        MountType::from_str("tmpf"),
        Err(RamdiskError::InvalidFsType(_))
    ));
    assert!(matches!(
        MountType::from_str("tmpfss"),
        Err(RamdiskError::InvalidFsType(_))
    ));
}

#[test]
fn invalid_fs_message_enumerates_the_literals() {
    let e = MountType::from_str("xfs").unwrap_err();
    let m = e.message();
    assert_eq!(m, "Unknown fs type xfs! Expected either `tmpfs` or `ramfs`");
}

#[test]
fn system_names() {
    assert_eq!(MountType::Tmpfs.to_system_name(), "tmpfs");
    assert_eq!(MountType::Ramfs.to_system_name(), "ramfs");
    assert_eq!(MountType::Tmpfs.system_name_bytes(), b"tmpfs".to_vec());
    assert_eq!(MountType::Ramfs.system_name_bytes(), b"ramfs".to_vec());
}

#[test]
fn equality_is_by_variant() {
    assert_eq!(MountType::Tmpfs, MountType::Tmpfs);
    assert_ne!(MountType::Tmpfs, MountType::Ramfs);
}
