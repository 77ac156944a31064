use vstd::prelude::*;

use crate::colors::{esc_seq, esc_spec};
use crate::display::{L_RIGHT, T_RIGHT, VERTICAL_PIPE};
use crate::text::push_str;

verus! {

pub const HORIZONTAL_PIPE: &'static str = "\u{2500}";

/// The guides of an eagerly built tree, with the indentation put before
/// every column but the first.
pub struct Ledger(pub &'static str);

/// The column `idx` of a connector line: the indentation (not before the
/// first column), then the branch on the last column, a pipe on an open
/// column, a space on a closed one.
pub open spec fn column(indent: Seq<char>, levels: Seq<Option<()>>, idx: int, remaining: bool) -> Seq<char> {
    (if idx > 0 {
        indent
    } else {
        Seq::empty()
    }) + if idx == levels.len() - 1 {
        if remaining {
            T_RIGHT@
        } else {
            L_RIGHT@
        }
    } else if levels[idx] is Some {
        VERTICAL_PIPE@
    } else {
        " "@
    }
}

/// The first `n` columns of a connector line.
pub open spec fn columns(indent: Seq<char>, levels: Seq<Option<()>>, n: int, remaining: bool) -> Seq<char>
    decreases n,
{
    if n <= 0 {
        Seq::empty()
    } else {
        columns(indent, levels, n - 1, remaining) + column(indent, levels, n - 1, remaining)
    }
}

impl Ledger {
    /// The open columns for the children of an entry at `level`: its own
    /// column closes when no sibling follows, and a new open column is added.
    pub fn extend_indent_list(indent_levels: &[Option<()>], remaining: bool, level: u32) -> (r: Vec<
        Option<()>,
    >)
        ensures
            r@ == (if !remaining && (level as int) < indent_levels@.len() {
                indent_levels@.update(level as int, None)
            } else {
                indent_levels@
            }).push(Some(())),
    {
        let mut list: Vec<Option<()>> = Vec::new();
        let mut i: usize = 0;
        while i < indent_levels.len()
            invariant
                i <= indent_levels@.len(),
                list@ == (if !remaining && (level as int) < indent_levels@.len() {
                    indent_levels@.update(level as int, None)
                } else {
                    indent_levels@
                }).take(i as int),
            decreases indent_levels@.len() - i,
        {
            let v = if !remaining && i == level as usize {
                None
            } else {
                indent_levels[i]
            };
            list.push(v);
            i = i + 1;
        }
        list.push(Some(()));
        proof {
            let full = if !remaining && (level as int) < indent_levels@.len() {
                indent_levels@.update(level as int, None)
            } else {
                indent_levels@
            };
            assert(full.take(indent_levels@.len() as int) =~= full);
        }
        list
    }

    /// The connector line for an entry whose open columns are
    /// `indent_levels`; nothing when there are none.
    pub fn add_connectors(&self, indent_levels: &[Option<()>], remaining: bool) -> (r: String)
        ensures
            r@ == columns(self.0@, indent_levels@, indent_levels@.len() as int, remaining),
    {
        let n = indent_levels.len();
        let mut out = String::new();
        let mut idx: usize = 0;
        while idx < n
            invariant
                n == indent_levels@.len(),
                idx <= n,
                out@ == columns(self.0@, indent_levels@, idx as int, remaining),
            decreases n - idx,
        {
            if idx > 0 {
                push_str(&mut out, self.0);
            } else {
                push_str(&mut out, "");
            }
            if idx == n - 1 {
                if remaining {
                    push_str(&mut out, T_RIGHT);
                } else {
                    push_str(&mut out, L_RIGHT);
                }
            } else if indent_levels[idx].is_some() {
                push_str(&mut out, VERTICAL_PIPE);
            } else {
                push_str(&mut out, " ");
            }
            proof {
                assert(""@.len() == 0) by {
                    reveal_strlit("");
                }
            }
            assert(out@ =~= columns(self.0@, indent_levels@, idx as int, remaining) + column(
                self.0@,
                indent_levels@,
                idx as int,
                remaining,
            ));
            idx = idx + 1;
        }
        out
    }

    /// The escape sequence for a (foreground, background) pair of codes,
    /// and the reset sequence that ends it.
    fn get_ansi_color_esc_seq(colors: &(String, String)) -> (r: (String, &'static str))
        ensures
            r.0@ == esc_spec(colors.0@, colors.1@, colors.1@.len() == 0).0,
            r.1@ == esc_spec(colors.0@, colors.1@, colors.1@.len() == 0).1,
    {
        let bg = colors.1.as_str();
        esc_seq(colors.0.as_str(), bg, bg.unicode_len() == 0)
    }

    /// The name part of a line: the branch (when indenting), the metadata
    /// text, a space, and the colored name.
    pub fn add_name_entry(&self, name: &str, additional_info: &str, colors: &(String, String)) -> (r:
        String)
        ensures
            ({
                let (fg_bg, reset) = esc_spec(colors.0@, colors.1@, colors.1@.len() == 0);
                r@ == (if self.0@.len() == 0 {
                    additional_info@
                } else {
                    HORIZONTAL_PIPE@ + HORIZONTAL_PIPE@ + HORIZONTAL_PIPE@ + additional_info@
                }) + " "@ + fg_bg + name@ + reset + "\n"@
            }),
    {
        let (fg_bg, reset) = Self::get_ansi_color_esc_seq(colors);
        let mut out = String::new();
        if self.0.unicode_len() > 0 {
            push_str(&mut out, HORIZONTAL_PIPE);
            push_str(&mut out, HORIZONTAL_PIPE);
            push_str(&mut out, HORIZONTAL_PIPE);
        }
        push_str(&mut out, additional_info);
        push_str(&mut out, " ");
        push_str(&mut out, fg_bg.as_str());
        push_str(&mut out, name);
        push_str(&mut out, reset);
        push_str(&mut out, "\n");
        out
    }
}

} // verus!
