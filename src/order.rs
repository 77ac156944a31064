use vstd::prelude::*;

use crate::dirent::{DirEntry, FileKind};

verus! {

/// Lexicographic order of character sequences by code point; a proper prefix
/// comes first.
pub open spec fn seq_less(a: Seq<char>, b: Seq<char>) -> bool
    decreases a.len(),
{
    if a.len() == 0 {
        b.len() > 0
    } else if b.len() == 0 {
        false
    } else if a[0] != b[0] {
        a[0] < b[0]
    } else {
        seq_less(a.skip(1), b.skip(1))
    }
}

/// Name order of two entries: by clean name, then by raw name; both reversed
/// when `rev` is set.
pub open spec fn name_less(a: DirEntry, b: DirEntry, rev: bool) -> bool {
    if rev {
        name_less_fwd(b, a)
    } else {
        name_less_fwd(a, b)
    }
}

pub open spec fn name_less_fwd(a: DirEntry, b: DirEntry) -> bool {
    seq_less(a.clean_name(), b.clean_name()) || (a.clean_name() == b.clean_name() && seq_less(
        a.raw_name(),
        b.raw_name(),
    ))
}

/// The order of siblings: directories first (when `dirs_first`), then older
/// modification time first (when `last_mod_sort`), then name order.
pub open spec fn sibling_less(
    a: DirEntry,
    b: DirEntry,
    dirs_first: bool,
    last_mod_sort: bool,
    rev: bool,
) -> bool {
    let a_dir = a.file_type == FileKind::Dir;
    let b_dir = b.file_type == FileKind::Dir;
    if dirs_first && a_dir != b_dir {
        a_dir
    } else if last_mod_sort && a.metadata.modified != b.metadata.modified {
        a.metadata.modified < b.metadata.modified
    } else {
        name_less(a, b, rev)
    }
}

pub proof fn lemma_seq_less_irreflexive(a: Seq<char>)
    ensures
        !seq_less(a, a),
    decreases a.len(),
{
    if a.len() > 0 {
        lemma_seq_less_irreflexive(a.skip(1));
    }
}

pub proof fn lemma_seq_less_transitive(a: Seq<char>, b: Seq<char>, c: Seq<char>)
    requires
        seq_less(a, b),
        seq_less(b, c),
    ensures
        seq_less(a, c),
    decreases a.len(),
{
    if a.len() > 0 && b.len() > 0 && c.len() > 0 && a[0] == b[0] && b[0] == c[0] {
        lemma_seq_less_transitive(a.skip(1), b.skip(1), c.skip(1));
    }
}

pub proof fn lemma_seq_less_total(a: Seq<char>, b: Seq<char>)
    requires
        a != b,
    ensures
        seq_less(a, b) || seq_less(b, a),
    decreases a.len(),
{
    if a.len() > 0 && b.len() > 0 && a[0] == b[0] {
        if a.skip(1) == b.skip(1) {
            assert(a =~= seq![a[0]] + a.skip(1));
            assert(b =~= seq![b[0]] + b.skip(1));
        }
        lemma_seq_less_total(a.skip(1), b.skip(1));
    } else if a.len() == 0 && b.len() == 0 {
        assert(a =~= b);
    }
}

proof fn lemma_name_fwd_facts(a: DirEntry, b: DirEntry, c: DirEntry)
    ensures
        !name_less_fwd(a, a),
        name_less_fwd(a, b) && name_less_fwd(b, c) ==> name_less_fwd(a, c),
        a.raw_name() != b.raw_name() ==> name_less_fwd(a, b) || name_less_fwd(b, a),
{
    lemma_seq_less_irreflexive(a.clean_name());
    lemma_seq_less_irreflexive(a.raw_name());
    if name_less_fwd(a, b) && name_less_fwd(b, c) {
        if seq_less(a.clean_name(), b.clean_name()) && seq_less(b.clean_name(), c.clean_name()) {
            lemma_seq_less_transitive(a.clean_name(), b.clean_name(), c.clean_name());
        }
        if a.clean_name() == b.clean_name() && b.clean_name() == c.clean_name() {
            lemma_seq_less_transitive(a.raw_name(), b.raw_name(), c.raw_name());
        }
    }
    if a.raw_name() != b.raw_name() {
        if a.clean_name() != b.clean_name() {
            lemma_seq_less_total(a.clean_name(), b.clean_name());
        } else {
            lemma_seq_less_total(a.raw_name(), b.raw_name());
        }
    }
}

/// The order of siblings is a strict total order: no entry comes before
/// itself, it is transitive, and of two entries with different names one
/// comes first.
pub proof fn lemma_sibling_order_strict_total(
    a: DirEntry,
    b: DirEntry,
    c: DirEntry,
    dirs_first: bool,
    last_mod_sort: bool,
    rev: bool,
)
    ensures
        !sibling_less(a, a, dirs_first, last_mod_sort, rev),
        sibling_less(a, b, dirs_first, last_mod_sort, rev) && sibling_less(
            b,
            c,
            dirs_first,
            last_mod_sort,
            rev,
        ) ==> sibling_less(a, c, dirs_first, last_mod_sort, rev),
        a.raw_name() != b.raw_name() ==> sibling_less(a, b, dirs_first, last_mod_sort, rev)
            || sibling_less(b, a, dirs_first, last_mod_sort, rev),
{
    lemma_name_fwd_facts(a, b, c);
    lemma_name_fwd_facts(c, b, a);
    lemma_name_fwd_facts(b, a, c);
}

/// Each flag decides the relative order only along its own rule: entries
/// that the directory rule and the time rule leave tied are ordered by name,
/// and `rev_alpha_sort` exactly reverses that name order.
pub proof fn lemma_ties_fall_back_to_name(
    a: DirEntry,
    b: DirEntry,
    dirs_first: bool,
    last_mod_sort: bool,
    rev: bool,
)
    requires
        !dirs_first || (a.file_type == FileKind::Dir) == (b.file_type == FileKind::Dir),
        !last_mod_sort || a.metadata.modified == b.metadata.modified,
    ensures
        sibling_less(a, b, dirs_first, last_mod_sort, rev) == name_less(a, b, rev),
        name_less(a, b, true) == name_less(b, a, false),
{
}

/// With `dirs_first`, a directory comes before a non-directory whatever the
/// other flags and names say.
pub proof fn lemma_dirs_first_decides(
    a: DirEntry,
    b: DirEntry,
    last_mod_sort: bool,
    rev: bool,
)
    requires
        a.file_type == FileKind::Dir,
        b.file_type != FileKind::Dir,
    ensures
        sibling_less(a, b, true, last_mod_sort, rev),
        !sibling_less(b, a, true, last_mod_sort, rev),
{
}

/// With `last_mod_sort`, of two entries that the directory rule leaves tied
/// and whose modification times differ, the older comes first, whatever
/// their names and `rev`.
pub proof fn lemma_time_rule_decides(a: DirEntry, b: DirEntry, dirs_first: bool, rev: bool)
    requires
        !dirs_first || (a.file_type == FileKind::Dir) == (b.file_type == FileKind::Dir),
        a.metadata.modified < b.metadata.modified,
    ensures
        sibling_less(a, b, dirs_first, true, rev),
        !sibling_less(b, a, dirs_first, true, rev),
{
}

/// Whether `a` and `b` hold the same characters.
pub fn str_eq(a: &str, b: &str) -> (r: bool)
    ensures
        r == (a@ == b@),
{
    let la = a.unicode_len();
    if la != b.unicode_len() {
        return false;
    }
    let mut i: usize = 0;
    while i < la
        invariant
            la == a@.len(),
            la == b@.len(),
            i <= la,
            forall|k: int| 0 <= k < i ==> a@[k] == b@[k],
        decreases la - i,
    {
        if a.get_char(i) != b.get_char(i) {
            return false;
        }
        i = i + 1;
    }
    assert(a@ =~= b@);
    true
}

/// Whether `a` comes before `b` in the lexicographic order of characters.
pub fn str_less(a: &str, b: &str) -> (r: bool)
    ensures
        r == seq_less(a@, b@),
{
    let la = a.unicode_len();
    let lb = b.unicode_len();
    let mut i: usize = 0;
    assert(a@.skip(0) =~= a@);
    assert(b@.skip(0) =~= b@);
    while i < la && i < lb
        invariant
            la == a@.len(),
            lb == b@.len(),
            i <= la,
            i <= lb,
            seq_less(a@, b@) == seq_less(a@.skip(i as int), b@.skip(i as int)),
        decreases la - i,
    {
        let x = a.get_char(i);
        let y = b.get_char(i);
        if x != y {
            return x < y;
        }
        assert(a@.skip(i as int).skip(1) =~= a@.skip(i + 1));
        assert(b@.skip(i as int).skip(1) =~= b@.skip(i + 1));
        i = i + 1;
    }
    i == la && i < lb
}

} // verus!
