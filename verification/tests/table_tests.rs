use ramdisk::table::{
    join_lines, line_is_entry_for, remove_entry, split_lines, upsert_entry, MountTableEntry,
};
use ramdisk::MountType;

fn entry(fs: MountType, target: &str) -> MountTableEntry {
    MountTableEntry::with_default_options(fs, target.as_bytes().to_vec())
}

#[test]
fn serialize_conventional_layout() {
    let e = entry(MountType::Ramfs, "./build");
    assert_eq!(e.serialize(), b"ramfs ./build ramfs defaults 0 0".to_vec());
    let e = entry(MountType::Tmpfs, "/mnt/work");
    assert_eq!(e.serialize(), b"tmpfs /mnt/work tmpfs defaults 0 0".to_vec());
}

#[test]
fn upsert_into_empty_table() {
    let out = upsert_entry(b"", &entry(MountType::Ramfs, "./build"));
    assert_eq!(out, b"ramfs ./build ramfs defaults 0 0\n".to_vec());
}

#[test]
fn upsert_appends_after_foreign_lines() {
    let table = b"/dev/sda1 / ext4 errors=remount-ro 0 1\nproc /proc proc defaults 0 0\n";
    let out = upsert_entry(table, &entry(MountType::Tmpfs, "/mnt/ram"));
    assert_eq!(
        out,
        b"/dev/sda1 / ext4 errors=remount-ro 0 1\nproc /proc proc defaults 0 0\ntmpfs /mnt/ram tmpfs defaults 0 0\n"
            .to_vec()
    );
}

#[test]
fn upsert_keeps_missing_trailing_newline_style() {
    let table = b"proc /proc proc defaults 0 0";
    let out = upsert_entry(table, &entry(MountType::Tmpfs, "/mnt/ram"));
    assert_eq!(
        out,
        b"proc /proc proc defaults 0 0\ntmpfs /mnt/ram tmpfs defaults 0 0".to_vec()
    );
}

#[test]
fn upsert_replaces_in_place() {
    let table = b"proc /proc proc defaults 0 0\ntmpfs /mnt/ram tmpfs defaults 0 0\nsysfs /sys sysfs defaults 0 0\n";
    let out = upsert_entry(table, &entry(MountType::Ramfs, "/mnt/ram"));
    assert_eq!(
        out,
        b"proc /proc proc defaults 0 0\nramfs /mnt/ram ramfs defaults 0 0\nsysfs /sys sysfs defaults 0 0\n"
            .to_vec()
    );
}

#[test]
fn upsert_twice_leaves_one_line_with_latest_options() {
    let table = b"proc /proc proc defaults 0 0\n";
    let mut e1 = entry(MountType::Tmpfs, "/mnt/ram");
    e1.options = b"defaults".to_vec();
    let mut e2 = entry(MountType::Tmpfs, "/mnt/ram");
    e2.options = b"size=2G".to_vec();
    let once = upsert_entry(table, &e1);
    let twice = upsert_entry(&once, &e2);
    assert_eq!(
        twice,
        b"proc /proc proc defaults 0 0\ntmpfs /mnt/ram tmpfs size=2G 0 0\n".to_vec()
    );
    let lines = split_lines(&twice);
    let matching: Vec<_> = lines
        .iter()
        .filter(|l| line_is_entry_for(l.as_slice(), b"/mnt/ram"))
        .collect();
    assert_eq!(matching.len(), 1);
}

#[test]
fn remove_absent_target_is_a_byte_identical_no_op() {
    let table = b"# local mounts\nproc /proc proc defaults 0 0";
    let out = remove_entry(table, b"/mnt/ram");
    assert_eq!(out, table.to_vec());
}

#[test]
fn remove_present_target_drops_only_its_line() {
    let table = b"proc /proc proc defaults 0 0\ntmpfs /mnt/ram tmpfs defaults 0 0\nsysfs /sys sysfs defaults 0 0\n";
    let out = remove_entry(table, b"/mnt/ram");
    assert_eq!(
        out,
        b"proc /proc proc defaults 0 0\nsysfs /sys sysfs defaults 0 0\n".to_vec()
    );
}

#[test]
fn remove_on_empty_content_is_a_no_op() {
    let out = remove_entry(b"", b"/mnt/ram");
    assert_eq!(out, b"".to_vec());
}

#[test]
fn comment_lines_are_never_entries() {
    let table = b"#/dev/sda1 /mnt/ram ext4 defaults 0 0\n";
    assert!(!line_is_entry_for(
        b"#/dev/sda1 /mnt/ram ext4 defaults 0 0",
        b"/mnt/ram"
    ));
    let out = remove_entry(table, b"/mnt/ram");
    assert_eq!(out, table.to_vec());
}

#[test]
fn entry_recognition_uses_the_second_field() {
    assert!(line_is_entry_for(
        b"tmpfs /mnt/ram tmpfs defaults 0 0",
        b"/mnt/ram"
    ));
    assert!(line_is_entry_for(
        b"  anything\t/mnt/ram  ext4 defaults 0 0",
        b"/mnt/ram"
    ));
    assert!(!line_is_entry_for(
        b"tmpfs /mnt/rampage tmpfs defaults 0 0",
        b"/mnt/ram"
    ));
    assert!(!line_is_entry_for(b"", b"/mnt/ram"));
    assert!(!line_is_entry_for(b"loneword", b"/mnt/ram"));
}

#[test]
fn split_and_join_round_trip() {
    let cases: [&[u8]; 5] = [
        b"",
        b"one line",
        b"a\nb\nc",
        b"ends with newline\n",
        b"\n\n",
    ];
    for c in cases {
        let lines = split_lines(c);
        assert_eq!(join_lines(&lines), c.to_vec());
    }
}

#[test]
fn split_counts_segments() {
    assert_eq!(split_lines(b"").len(), 1);
    assert_eq!(split_lines(b"a\nb").len(), 2);
    assert_eq!(split_lines(b"a\nb\n").len(), 3);
}
