use vstd::prelude::*;

use crate::dirent::{decimal, push_decimal, DirEntry, FileKind};
use crate::text::push_str;

verus! {

pub const VERTICAL_PIPE: &'static str = "\u{2502}";

pub const L_RIGHT: &'static str = "\u{2514}";

pub const T_RIGHT: &'static str = "\u{251C}";

pub const NAME_CONNECTOR: &'static str = "\u{2500}\u{2500}\u{2500}";

pub const DEFAULT_INDENT: &'static str = "    ";

/// The renderer of a traversal as tree lines: which levels still have
/// siblings to come, and how many directories and files were shown.
pub struct Display {
    pub has_remaining: Vec<bool>,
    pub file_count: u64,
    pub dir_count: u64,
}

/// What follows the name of a link: the recursion mark if any, an arrow and
/// the raw target.
pub open spec fn link_suffix(e: DirEntry) -> Seq<char> {
    match e.linked_path {
        Some(p) => (if e.is_recursive_link {
            "[Recursion detected]"@
        } else {
            ""@
        }) + " -> "@ + p@,
        None => ""@,
    }
}

/// One more, unless already the largest `u64`.
pub open spec fn bump(n: u64) -> u64 {
    if n < u64::MAX {
        (n + 1) as u64
    } else {
        n
    }
}

impl Display {
    pub fn new() -> (r: Display)
        ensures
            r.file_count == 0,
            r.dir_count == 0,
            forall|l: int| !r.open_level(l),
    {
        Display { has_remaining: Vec::new(), file_count: 0, dir_count: 0 }
    }

    /// Level `l` still has siblings to come below the current line.
    pub open spec fn open_level(&self, l: int) -> bool {
        0 <= l < self.has_remaining@.len() && self.has_remaining@[l]
    }

    /// The guides before the connector of an entry at depth `d`: for each
    /// level from 1 up to `d - 1`, a pipe where that level is still open,
    /// a space otherwise, and the indentation.
    pub open spec fn guides(&self, d: int) -> Seq<char>
        decreases d,
    {
        if d <= 1 {
            Seq::empty()
        } else {
            self.guides(d - 1) + (if self.open_level(d - 1) {
                VERTICAL_PIPE@
            } else {
                " "@
            }) + DEFAULT_INDENT@
        }
    }

    /// The line shown for `e`: the root bare, without indentation the name
    /// and link suffix, otherwise guides, connector, metadata, name and link
    /// suffix.
    pub open spec fn line(
        &self,
        remaining: usize,
        e: DirEntry,
        name: Seq<char>,
        info: Seq<char>,
        fg_bg: Seq<char>,
        reset: Seq<char>,
        no_indent: bool,
    ) -> Seq<char> {
        if e.depth == 0 {
            fg_bg + name + reset + "\n"@
        } else if no_indent {
            fg_bg + name + reset + link_suffix(e) + "\n"@
        } else {
            self.guides(e.depth as int) + (if remaining > 1 {
                T_RIGHT@
            } else {
                L_RIGHT@
            }) + NAME_CONNECTOR@ + " "@ + info + fg_bg + name + reset + link_suffix(e) + "\n"@
        }
    }

    fn push_link_suffix(out: &mut String, e: &DirEntry)
        ensures
            final(out)@ == old(out)@ + link_suffix(*e),
    {
        match &e.linked_path {
            Some(p) => {
                if e.is_recursive_link {
                    push_str(out, "[Recursion detected]");
                } else {
                    push_str(out, "");
                }
                push_str(out, " -> ");
                push_str(out, p.as_str());
            },
            None => {
                push_str(out, "");
            },
        }
    }

    fn set_level(&mut self, l: usize, open: bool)
        ensures
            forall|k: int| #[trigger] final(self).open_level(k) == if k == l {
                open
            } else {
                old(self).open_level(k)
            },
            final(self).file_count == old(self).file_count,
            final(self).dir_count == old(self).dir_count,
    {
        while self.has_remaining.len() <= l
            invariant
                forall|k: int| #[trigger] self.open_level(k) == old(self).open_level(k),
                self.file_count == old(self).file_count,
                self.dir_count == old(self).dir_count,
            decreases l + 1 - self.has_remaining@.len(),
        {
            let ghost before = *self;
            self.has_remaining.push(false);
            assert forall|k: int| #[trigger] self.open_level(k) == old(self).open_level(k) by {
                assert(self.open_level(k) == before.open_level(k));
            }
        }
        let ghost before = *self;
        self.has_remaining.set(l, open);
        assert forall|k: int| #[trigger] self.open_level(k) == if k == l {
            open
        } else {
            old(self).open_level(k)
        } by {
            assert(before.open_level(k) == old(self).open_level(k));
        }
    }

    /// Renders one yielded entry (`remaining` as the walker gave it), shown
    /// under `name` with the metadata text `info` and the color codes
    /// `fg_bg` and `reset`, and counts it. Below the root, the entry's level
    /// is marked open exactly when more siblings follow.
    pub fn render_entry(
        &mut self,
        remaining: usize,
        entry: &DirEntry,
        name: &str,
        info: &str,
        fg_bg: &str,
        reset: &str,
        no_indent: bool,
    ) -> (r: String)
        ensures
            r@ == old(self).line(remaining, *entry, name@, info@, fg_bg@, reset@, no_indent),
            forall|k: int| #[trigger] final(self).open_level(k) == if entry.depth != 0 && !no_indent
                && k == entry.depth {
                remaining > 1
            } else {
                old(self).open_level(k)
            },
            final(self).file_count == if entry.depth != 0 && entry.file_type != FileKind::Dir
                && entry.file_type != FileKind::Symlink {
                bump(old(self).file_count)
            } else {
                old(self).file_count
            },
            final(self).dir_count == if entry.depth != 0 && entry.file_type == FileKind::Dir {
                bump(old(self).dir_count)
            } else {
                old(self).dir_count
            },
    {
        let depth = entry.depth;
        let mut out = String::new();
        if depth == 0 {
            push_str(&mut out, fg_bg);
            push_str(&mut out, name);
            push_str(&mut out, reset);
            push_str(&mut out, "\n");
        } else if no_indent {
            push_str(&mut out, fg_bg);
            push_str(&mut out, name);
            push_str(&mut out, reset);
            Self::push_link_suffix(&mut out, entry);
            push_str(&mut out, "\n");
        } else {
            let mut level: usize = 1;
            while level < depth
                invariant
                    1 <= level <= depth,
                    out@ == self.guides(level as int),
                decreases depth - level,
            {
                let open = level < self.has_remaining.len() && self.has_remaining[level];
                if open {
                    push_str(&mut out, VERTICAL_PIPE);
                } else {
                    push_str(&mut out, " ");
                }
                push_str(&mut out, DEFAULT_INDENT);
                level = level + 1;
            }
            if remaining > 1 {
                push_str(&mut out, T_RIGHT);
            } else {
                push_str(&mut out, L_RIGHT);
            }
            push_str(&mut out, NAME_CONNECTOR);
            push_str(&mut out, " ");
            push_str(&mut out, info);
            push_str(&mut out, fg_bg);
            push_str(&mut out, name);
            push_str(&mut out, reset);
            Self::push_link_suffix(&mut out, entry);
            push_str(&mut out, "\n");
        }
        if depth != 0 {
            if !entry.is_dir() && !entry.is_symlink() {
                if self.file_count < u64::MAX {
                    self.file_count = self.file_count + 1;
                }
            } else if entry.is_dir() {
                if self.dir_count < u64::MAX {
                    self.dir_count = self.dir_count + 1;
                }
            }
        }
        let ghost counted = *self;
        assert forall|k: int| #[trigger] counted.open_level(k) == old(self).open_level(k) by {}
        if depth != 0 && !no_indent {
            self.set_level(depth, remaining > 1);
        }
        out
    }

    /// The closing report line.
    pub fn report(&self) -> (r: String)
        ensures
            r@ == "Total directories: "@ + decimal(self.dir_count as nat) + " Total files: "@
                + decimal(self.file_count as nat),
    {
        let mut out = String::new();
        push_str(&mut out, "Total directories: ");
        push_decimal(&mut out, self.dir_count);
        push_str(&mut out, " Total files: ");
        push_decimal(&mut out, self.file_count);
        out
    }
}

} // verus!
