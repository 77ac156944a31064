use dirtree::display::Display;
use dirtree::dirent::{DirEntry, EntryMeta, FileKind};
use dirtree::error::{Error, Related};
use dirtree::ledger::Ledger;

fn entry(name: &str, depth: usize, kind: FileKind) -> DirEntry {
    let meta = EntryMeta { size: 0, modified: 0, mode: 0o644, uid: 0, gid: 0, ino: 1, dev: 1 };
    let link = if kind == FileKind::Symlink { Some(String::from("../t")) } else { None };
    let mut e = DirEntry::from_parts(name.to_string(), Some(name.to_string()), 0, kind, link, None, meta).unwrap();
    e.depth = depth;
    e
}

#[test]
fn tree_lines_and_counts() {
    let mut d = Display::new();
    let mut out = String::new();
    out += &d.render_entry(1, &entry("root", 0, FileKind::Dir), "root", "", "", "", false);
    out += &d.render_entry(2, &entry("a", 1, FileKind::Dir), "a", "", "", "", false);
    out += &d.render_entry(1, &entry("x", 2, FileKind::File), "x", "", "", "", false);
    out += &d.render_entry(1, &entry("b", 1, FileKind::File), "b", "[1 B] ", "", "", false);
    assert_eq!(
        out,
        "root\n\u{251C}\u{2500}\u{2500}\u{2500} a\n\u{2502}    \u{2514}\u{2500}\u{2500}\u{2500} x\n\u{2514}\u{2500}\u{2500}\u{2500} [1 B] b\n"
    );
    assert_eq!(d.dir_count, 1);
    assert_eq!(d.file_count, 2);
    assert_eq!(d.report(), "Total directories: 1 Total files: 2");
}

#[test]
fn recursive_link_line() {
    let mut d = Display::new();
    let mut e = entry("up", 1, FileKind::Symlink);
    e.is_recursive_link = true;
    assert_eq!(d.render_entry(1, &e, "up", "", "", "", true), "up[Recursion detected] -> ../t\n");
    assert_eq!(d.file_count + d.dir_count, 0);
}

#[test]
fn ledger_lines() {
    assert_eq!(
        Ledger::extend_indent_list(&[Some(()), Some(())], false, 1),
        vec![Some(()), None, Some(())]
    );
    assert_eq!(Ledger::extend_indent_list(&[Some(())], true, 0), vec![Some(()), Some(())]);
    let l = Ledger("    ");
    assert_eq!(l.add_connectors(&[Some(()), None, Some(())], true), "\u{2502}         \u{251C}");
    assert_eq!(l.add_connectors(&[], true), "");
    let entry = l.add_name_entry("f", "[x] ", &(String::from("31"), String::new()));
    assert_eq!(entry, "\u{2500}\u{2500}\u{2500}[x]  \x1B[31mf\x1B[0m\n");
}

#[test]
fn error_message() {
    let e = Error::from_path("a\"b", 2, Related::Read);
    assert_eq!(e.depth, 2);
    assert_eq!(e.message(), "io error encountered at the following path: \"a\\\"b\"related to file access");
}

#[test]
fn error_messages_by_kind() {
    assert!(Error::from_path("p", 0, Related::Metadata).message().ends_with("\"p\"related to metadata access"));
    assert!(Error::from_path("p", 0, Related::Link).message().ends_with("\"p\"related to link resolution"));
    assert_eq!(Error::from_path("p", 4, Related::Link).related, Related::Link);
}
