use dirtree::dirent::{calc_years, decimal_string, DirEntry, EntryMeta, ExtData, FileKind};
use dirtree::flags::Flags;

fn make(name: &str, kind: FileKind, mode: u32) -> DirEntry {
    let meta = EntryMeta { size: 1234, modified: 7, mode, uid: 501, gid: 20, ino: 98765, dev: 66 };
    let link = if kind == FileKind::Symlink { Some(String::from("target")) } else { None };
    DirEntry::from_parts(format!("dir/{name}"), Some(name.to_string()), 3, kind, link, None, meta)
        .expect("entry")
}

#[test]
fn clean_name_strips_one_dot() {
    let e = make(".hidden", FileKind::File, 0o644);
    assert_eq!(e.get_clean_name(), "hidden");
    assert!(e.is_hidden());
    let e = make("..x", FileKind::File, 0o644);
    assert_eq!(e.get_clean_name(), ".x");
    let e = make("plain", FileKind::File, 0o644);
    assert_eq!(e.get_clean_name(), "plain");
    assert!(!e.is_hidden());
}

#[test]
fn link_without_target_text_gives_no_entry() {
    let meta = EntryMeta { size: 0, modified: 0, mode: 0, uid: 0, gid: 0, ino: 1, dev: 1 };
    assert!(DirEntry::from_parts(String::from("l"), None, 0, FileKind::Symlink, None, None, meta).is_none());
    let e = DirEntry::from_parts(String::from("f"), None, 0, FileKind::File, Some(String::from("x")), None, meta).unwrap();
    assert!(e.linked_path().is_none());
    assert_eq!(e.get_clean_name(), "f");
}

#[test]
fn permissions_string() {
    assert_eq!(make("d", FileKind::Dir, 0o755).get_ext_data(ExtData::Permissions), "drwxr-xr-x");
    assert_eq!(make("f", FileKind::File, 0o640).get_ext_data(ExtData::Permissions), "-rw-r-----");
    assert_eq!(make("l", FileKind::Symlink, 0o777).get_ext_data(ExtData::Permissions), "lrwxrwxrwx");
    assert_eq!(make("p", FileKind::Other, 0o10600).get_ext_data(ExtData::Permissions), "prw-------");
    assert_eq!(make("s", FileKind::Other, 0o140600).get_ext_data(ExtData::Permissions), "srw-------");
}

#[test]
fn numeric_fields_in_decimal() {
    let e = make("f", FileKind::File, 0o644);
    assert_eq!(e.get_ext_data(ExtData::Inode), "98765");
    assert_eq!(e.get_ext_data(ExtData::Uid), "501");
    assert_eq!(e.get_ext_data(ExtData::Gid), "20");
    assert_eq!(e.get_ext_data(ExtData::Device), "66");
    assert_eq!(decimal_string(0), "0");
    assert_eq!(decimal_string(u64::MAX), "18446744073709551615");
}

#[test]
fn kinds_and_markers() {
    let x = make("x", FileKind::File, 0o755);
    assert!(x.is_executable());
    assert_eq!(x.get_file_type(), "executable");
    assert_eq!(x.get_identity_character(), "*");
    let d = make("d", FileKind::Dir, 0o755);
    assert!(!d.is_executable());
    assert_eq!(d.get_file_type(), "directory");
    assert_eq!(d.get_identity_character(), "/");
    let l = make("l", FileKind::Symlink, 0o777);
    assert_eq!(l.get_file_type(), "sym_link");
    assert_eq!(l.get_identity_character(), "");
    assert_eq!(l.linked_path(), Some("target"));
    let f = make("f", FileKind::File, 0o644);
    assert_eq!(f.get_file_type(), "");
    assert_eq!(f.get_size(), 1234);
    assert_eq!(f.get_last_modified(), 7);
    assert_eq!(f.get_depth(), 3);
    assert_eq!(f.path(), "dir/f");
    assert_eq!(f.get_name(), Some("f"));
    assert_eq!(make("q", FileKind::Other, 0o10644).get_identity_character(), "|");
    assert_eq!(make("q", FileKind::Other, 0o140644).get_identity_character(), "=");
}

#[test]
fn years_since_epoch() {
    assert_eq!(calc_years(0), (0, 0));
    assert_eq!(calc_years(31536000), (1, 0));
    assert_eq!(calc_years(94694400), (3, 0));
    assert_eq!(calc_years(94608000), (2, 31536000));
    assert_eq!(calc_years(31536000 + 17), (1, 17));
}

#[test]
fn additional_info_in_fixed_order() {
    let e = make("f", FileKind::File, 0o640);
    let mut flags = Flags::new();
    assert_eq!(e.get_additional_info(&flags), "");
    flags.size = true;
    assert_eq!(e.get_additional_info(&flags), "[1234 B] ");
    flags.human_readable_size = true;
    flags.protections = true;
    flags.inode = true;
    assert_eq!(e.get_additional_info(&flags), "[-rw-r----- 1.2 K 98765] ");
    flags.human_readable_size = false;
    flags.size = false;
    flags.protections = false;
    flags.inode = false;
    flags.last_modified = true;
    assert_eq!(e.get_additional_info(&flags), "[0] ");
}
