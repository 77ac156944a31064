use std::collections::HashMap;

use dirtree::dirent::{DirEntry, EntryMeta, FileKind, Target, FileId};
use dirtree::pattern::Pattern;
use dirtree::tree::{Step, Tree, TreeIterator, TreeIteratorFlags};

struct Node {
    kind: FileKind,
    ino: u64,
    modified: u128,
    children: Vec<&'static str>,
    link: Option<&'static str>,
}

type Fs = HashMap<&'static str, Node>;

fn dir(ino: u64, children: Vec<&'static str>) -> Node {
    Node { kind: FileKind::Dir, ino, modified: 0, children, link: None }
}

fn file(ino: u64) -> Node {
    Node { kind: FileKind::File, ino, modified: 0, children: vec![], link: None }
}

fn link(ino: u64, to: &'static str) -> Node {
    Node { kind: FileKind::Symlink, ino, modified: 0, children: vec![], link: Some(to) }
}

fn meta(ino: u64, modified: u128) -> EntryMeta {
    EntryMeta { size: 0, modified, mode: 0o644, uid: 0, gid: 0, ino, dev: 1 }
}

fn entry(fs: &Fs, path: &str) -> DirEntry {
    let node = &fs[path];
    let name = path.rsplit('/').next().map(String::from);
    let target = node.link.map(|to| {
        let t = &fs[to];
        Target { id: FileId { dev: 1, ino: t.ino }, is_dir: t.kind == FileKind::Dir }
    });
    DirEntry::from_parts(
        path.to_string(),
        name,
        0,
        node.kind,
        node.link.map(String::from),
        target,
        meta(node.ino, node.modified),
    )
    .expect("well-formed entry")
}

fn children(fs: &Fs, path: &str) -> Vec<DirEntry> {
    let node = &fs[path];
    let real = match node.link {
        Some(to) => to,
        None => path,
    };
    fs[real]
        .children
        .iter()
        .map(|c| entry(fs, &format!("{real}/{c}")))
        .collect()
}

fn flags() -> TreeIteratorFlags {
    TreeIteratorFlags {
        root: Some(String::from("r")),
        max_depth: None,
        visit_all: false,
        dirs_only: false,
        dirs_first: false,
        last_mod_sort: false,
        rev_alpha_sort: false,
        follow_symlinks: false,
    }
}

/// (remaining, name, depth, recursive link) of every yielded entry.
fn walk(fs: &Fs, mut f: TreeIteratorFlags, pattern: Option<Pattern>) -> Vec<(usize, String, usize, bool)> {
    let tree = Tree::new(&mut f, pattern);
    let root = tree.root.clone().expect("root");
    let mut it = TreeIterator::new(tree, entry(fs, &root));
    let mut out = vec![];
    let mut guard = 0;
    loop {
        guard += 1;
        assert!(guard < 1000, "traversal does not end");
        let (rem, e) = match it.step() {
            Step::Done => break,
            Step::Yield(rem, e) => (rem, e),
            Step::Read(path) => {
                let cs = children(fs, &path);
                it.expand(cs).expect("a directory was awaited")
            }
        };
        out.push((rem, e.get_name().unwrap_or("").to_string(), e.get_depth(), e.is_recursive_link));
    }
    out
}

fn names(v: &[(usize, String, usize, bool)]) -> Vec<&str> {
    v.iter().map(|x| x.1.as_str()).collect()
}

fn sample() -> Fs {
    let mut fs = Fs::new();
    fs.insert("r", dir(1, vec!["b.txt", "a.txt", "z"]));
    fs.insert("r/b.txt", file(2));
    fs.insert("r/a.txt", file(3));
    fs.insert("r/z", dir(4, vec![]));
    fs
}

#[test]
fn dirs_first_puts_directories_before_files() {
    let mut f = flags();
    f.dirs_first = true;
    let out = walk(&sample(), f, None);
    assert_eq!(names(&out), vec!["r", "z", "a.txt", "b.txt"]);
    assert_eq!(out[0].0, 1);
    assert_eq!(out.iter().map(|x| x.0).collect::<Vec<_>>(), vec![1, 3, 2, 1]);
    assert_eq!(out.iter().map(|x| x.2).collect::<Vec<_>>(), vec![0, 1, 1, 1]);
}

#[test]
fn reverse_alphabetic_order() {
    let mut f = flags();
    f.rev_alpha_sort = true;
    let out = walk(&sample(), f, None);
    assert_eq!(names(&out), vec!["r", "z", "b.txt", "a.txt"]);
}

#[test]
fn default_order_is_by_name() {
    let out = walk(&sample(), flags(), None);
    assert_eq!(names(&out), vec!["r", "a.txt", "b.txt", "z"]);
}

#[test]
fn modification_time_sort_then_name() {
    let mut fs = sample();
    fs.get_mut("r/b.txt").unwrap().modified = 5;
    fs.get_mut("r/a.txt").unwrap().modified = 9;
    fs.get_mut("r/z").unwrap().modified = 5;
    let mut f = flags();
    f.last_mod_sort = true;
    let out = walk(&fs, f, None);
    assert_eq!(names(&out), vec!["r", "b.txt", "z", "a.txt"]);
}

#[test]
fn hidden_children_are_dropped_but_directory_is_yielded() {
    let mut fs = Fs::new();
    fs.insert("r", dir(1, vec!["d"]));
    fs.insert("r/d", dir(2, vec![".x", ".y"]));
    fs.insert("r/d/.x", file(3));
    fs.insert("r/d/.y", file(4));
    let out = walk(&fs, flags(), None);
    assert_eq!(names(&out), vec!["r", "d"]);
    let mut f = flags();
    f.visit_all = true;
    let out = walk(&fs, f, None);
    assert_eq!(names(&out), vec!["r", "d", ".x", ".y"]);
}

#[test]
fn clean_name_interleaves_hidden_entries() {
    let mut fs = Fs::new();
    fs.insert("r", dir(1, vec!["c", ".b", "a"]));
    fs.insert("r/c", file(2));
    fs.insert("r/.b", file(3));
    fs.insert("r/a", file(4));
    let mut f = flags();
    f.visit_all = true;
    assert_eq!(names(&walk(&fs, f, None)), vec!["r", "a", ".b", "c"]);
}

#[test]
fn max_depth_yields_but_does_not_open_directories_at_the_limit() {
    let mut fs = Fs::new();
    fs.insert("r", dir(1, vec!["d"]));
    fs.insert("r/d", dir(2, vec!["e"]));
    fs.insert("r/d/e", dir(3, vec!["f"]));
    fs.insert("r/d/e/f", file(4));
    let mut f = flags();
    f.max_depth = Some(1);
    let out = walk(&fs, f, None);
    assert_eq!(names(&out), vec!["r", "d"]);
    let mut f = flags();
    f.max_depth = Some(0);
    assert_eq!(names(&walk(&fs, f, None)), vec!["r"]);
    let out = walk(&fs, flags(), None);
    assert_eq!(out.iter().map(|x| x.2).collect::<Vec<_>>(), vec![0, 1, 2, 3]);
}

#[test]
fn link_back_to_an_open_directory_is_marked_and_not_followed() {
    let mut fs = Fs::new();
    fs.insert("r", dir(1, vec!["a"]));
    fs.insert("r/a", dir(2, vec!["up"]));
    fs.insert("r/a/up", link(3, "r"));
    let mut f = flags();
    f.follow_symlinks = true;
    let out = walk(&fs, f, None);
    assert_eq!(names(&out), vec!["r", "a", "up"]);
    assert_eq!(out.iter().filter(|x| x.3).count(), 1);
    assert!(out[2].3);
}

#[test]
fn link_to_a_directory_is_followed_only_when_asked() {
    let mut fs = Fs::new();
    fs.insert("r", dir(1, vec!["l", "t"]));
    fs.insert("r/l", link(2, "r/t"));
    fs.insert("r/t", dir(3, vec!["x"]));
    fs.insert("r/t/x", file(4));
    assert_eq!(names(&walk(&fs, flags(), None)), vec!["r", "l", "t", "x"]);
    let mut f = flags();
    f.follow_symlinks = true;
    assert_eq!(names(&walk(&fs, f, None)), vec!["r", "l", "x", "t", "x"]);
}

#[test]
fn pattern_filters_files_but_not_directories() {
    let mut fs = sample();
    fs.get_mut("r/z").unwrap().children = vec!["q.rs"];
    fs.insert("r/z/q.rs", file(9));
    let keep = Pattern::parse("*.rs", true).unwrap();
    assert_eq!(names(&walk(&fs, flags(), Some(keep))), vec!["r", "z", "q.rs"]);
    let drop = Pattern::parse("a*", false).unwrap();
    assert_eq!(names(&walk(&fs, flags(), Some(drop))), vec!["r", "b.txt", "z", "q.rs"]);
}

#[test]
fn dirs_only_keeps_directories() {
    let mut f = flags();
    f.dirs_only = true;
    assert_eq!(names(&walk(&sample(), f, None)), vec!["r", "z"]);
}

#[test]
fn unreadable_directory_has_no_children() {
    let fs = sample();
    let mut f = flags();
    let tree = Tree::new(&mut f, None);
    assert!(f.root.is_none());
    let mut it = TreeIterator::new(tree, entry(&fs, "r"));
    match it.step() {
        Step::Read(p) => assert_eq!(p, "r"),
        _ => panic!("root should be read"),
    }
    match it.step() {
        Step::Yield(1, e) => assert_eq!(e.path(), "r"),
        _ => panic!("root should be yielded"),
    }
    assert!(matches!(it.step(), Step::Done));
    assert!(it.expand(vec![]).is_none());
}
