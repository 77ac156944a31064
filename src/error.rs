use vstd::prelude::*;

use crate::text::push_str;

verus! {

/// What the failed access was for.
#[derive(Clone, Copy, Debug, PartialEq, Eq, Structural)]
pub enum Related {
    /// The metadata of a path could not be read.
    Metadata,
    /// The contents of a directory could not be read.
    Read,
    /// A link's target could not be read or identified.
    Link,
}

/// A failure local to one entry of a traversal.
pub struct Error {
    pub depth: usize,
    pub path: String,
    pub related: Related,
}

/// The text of `s` as Rust's debug formatting shows it: quoted, with
/// special characters escaped.
pub uninterp spec fn debug_quoted(s: Seq<char>) -> Seq<char>;

/// Relies on `<str as Debug>::fmt` (through `format!`): the quoted, escaped
/// form depends on the characters alone.
#[verifier::external_body]
fn debug_str(s: &str) -> (r: String)
    ensures
        r@ == debug_quoted(s@),
{
    format!("{:?}", s)
}

impl Error {
    pub fn from_path(path: &str, depth: usize, related: Related) -> (r: Error)
        ensures
            r.path@ == path@,
            r.depth == depth,
            r.related == related,
    {
        let mut p = String::new();
        push_str(&mut p, path);
        Error { depth, path: p, related }
    }

    /// The text that reports this failure.
    pub fn message(&self) -> (r: String)
        ensures
            r@ == "io error encountered at the following path: "@ + debug_quoted(self.path@)
                + match self.related {
                Related::Metadata => "related to metadata access"@,
                Related::Read => "related to file access"@,
                Related::Link => "related to link resolution"@,
            },
    {
        let mut out = String::new();
        push_str(&mut out, "io error encountered at the following path: ");
        let quoted = debug_str(self.path.as_str());
        push_str(&mut out, quoted.as_str());
        match self.related {
            Related::Metadata => push_str(&mut out, "related to metadata access"),
            Related::Read => push_str(&mut out, "related to file access"),
            Related::Link => push_str(&mut out, "related to link resolution"),
        }
        out
    }
}

} // verus!
