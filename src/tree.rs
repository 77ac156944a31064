use vstd::prelude::*;

use crate::dirent::{DirEntry, FileId, FileKind};
use crate::order::{
    lemma_sibling_order_strict_total, name_less, sibling_less, str_less,
};
use crate::pattern::{pattern_matches, Pattern};

verus! {

broadcast use vstd::seq_lib::group_to_multiset_ensures;

/// The traversal policy as handed over by the command line.
pub struct TreeIteratorFlags {
    pub root: Option<String>,
    pub max_depth: Option<usize>,
    pub visit_all: bool,
    pub dirs_only: bool,
    pub dirs_first: bool,
    pub last_mod_sort: bool,
    pub rev_alpha_sort: bool,
    pub follow_symlinks: bool,
}

/// The configuration of one traversal.
pub struct Tree {
    pub pattern: Option<Pattern>,
    pub root: Option<String>,
    pub visit_all: bool,
    pub dirs_only: bool,
    pub max_depth: Option<usize>,
    pub dirs_first: bool,
    pub rev_alpha_sort: bool,
    pub last_mod_sort: bool,
    pub follow_symlinks: bool,
}

impl Tree {
    /// Takes the root and the depth limit out of `tree_iterator_flags` and
    /// copies the other flags.
    pub fn new(tree_iterator_flags: &mut TreeIteratorFlags, pattern: Option<Pattern>) -> (r: Tree)
        ensures
            r.pattern == pattern,
            r.root == old(tree_iterator_flags).root,
            r.max_depth == old(tree_iterator_flags).max_depth,
            r.visit_all == old(tree_iterator_flags).visit_all,
            r.dirs_only == old(tree_iterator_flags).dirs_only,
            r.dirs_first == old(tree_iterator_flags).dirs_first,
            r.rev_alpha_sort == old(tree_iterator_flags).rev_alpha_sort,
            r.last_mod_sort == old(tree_iterator_flags).last_mod_sort,
            r.follow_symlinks == old(tree_iterator_flags).follow_symlinks,
            final(tree_iterator_flags).root is None,
            final(tree_iterator_flags).max_depth is None,
            final(tree_iterator_flags).visit_all == old(tree_iterator_flags).visit_all,
            final(tree_iterator_flags).dirs_only == old(tree_iterator_flags).dirs_only,
            final(tree_iterator_flags).dirs_first == old(tree_iterator_flags).dirs_first,
            final(tree_iterator_flags).last_mod_sort == old(tree_iterator_flags).last_mod_sort,
            final(tree_iterator_flags).rev_alpha_sort == old(tree_iterator_flags).rev_alpha_sort,
            final(tree_iterator_flags).follow_symlinks == old(tree_iterator_flags).follow_symlinks,
    {
        Tree {
            pattern,
            root: tree_iterator_flags.root.take(),
            max_depth: tree_iterator_flags.max_depth.take(),
            visit_all: tree_iterator_flags.visit_all,
            dirs_only: tree_iterator_flags.dirs_only,
            dirs_first: tree_iterator_flags.dirs_first,
            rev_alpha_sort: tree_iterator_flags.rev_alpha_sort,
            last_mod_sort: tree_iterator_flags.last_mod_sort,
            follow_symlinks: tree_iterator_flags.follow_symlinks,
        }
    }
}

/// The children of one open directory still to be yielded, the next one
/// last, and the identity of that directory.
pub struct Frame {
    pub children: Vec<DirEntry>,
    pub dir_id: Option<FileId>,
}

/// What the walker asks for next.
pub enum Step {
    /// The traversal is over.
    Done,
    /// Yield this entry, with the number of entries that were left in its
    /// frame before it was taken.
    Yield(usize, DirEntry),
    /// Read the children of the directory at this path and hand them to
    /// `expand` (none if it cannot be read).
    Read(String),
}

/// A depth-first walker over a directory hierarchy. It decides; the caller
/// reads directories when asked to.
pub struct TreeIterator {
    /// The root entry, until it is yielded.
    pub start: Option<DirEntry>,
    /// One frame per open directory, innermost last.
    pub frames: Vec<Frame>,
    /// Identities of the directories entered while following links.
    pub visited: Vec<FileId>,
    /// The directory whose children were asked for, with its count.
    pub awaiting: Option<(usize, DirEntry)>,
    pub visit_all: bool,
    pub dirs_only: bool,
    pub dirs_first: bool,
    pub rev_alpha_sort: bool,
    pub last_mod_sort: bool,
    pub follow_symlinks: bool,
    pub max_depth: Option<usize>,
    pub pattern: Option<Pattern>,
}

/// `e` at depth `d`.
pub open spec fn with_depth(e: DirEntry, d: usize) -> DirEntry {
    DirEntry { depth: d, ..e }
}

/// The filters on children: hidden entries go unless `visit_all`,
/// non-directories go under `dirs_only`, and a non-directory stays under a
/// pattern exactly when whether it matches agrees with whether matches are
/// kept.
pub open spec fn kept_by(visit_all: bool, dirs_only: bool, pattern: Option<Pattern>) -> spec_fn(
    DirEntry,
) -> bool {
    |c: DirEntry|
        {
            &&& (visit_all || !c.hidden())
            &&& (!dirs_only || c.file_type == FileKind::Dir)
            &&& (c.file_type == FileKind::Dir || (pattern matches Some(p) ==> pattern_matches(
                p.tokens(),
                c.raw_name(),
            ) == p.keeps_matches()))
        }
}

pub open spec fn depth_fn(d: usize) -> spec_fn(DirEntry) -> DirEntry {
    |c: DirEntry| with_depth(c, d)
}

/// No element comes before an earlier one: the frame order, next one last.
pub open spec fn sorted_desc(s: Seq<DirEntry>, dirs_first: bool, last_mod_sort: bool, rev: bool) -> bool {
    forall|i: int, j: int|
        0 <= i < j < s.len() ==> !sibling_less(#[trigger] s[i], #[trigger] s[j], dirs_first, last_mod_sort, rev)
}

/// The innermost frame that still has children, if any.
pub open spec fn top_nonempty(frames: Seq<Frame>) -> Option<int>
    decreases frames.len(),
{
    if frames.len() == 0 {
        None
    } else if frames.last().children@.len() > 0 {
        Some(frames.len() - 1)
    } else {
        top_nonempty(frames.drop_last())
    }
}

proof fn lemma_top_nonempty(frames: Seq<Frame>)
    ensures
        top_nonempty(frames) matches Some(k) ==> 0 <= k < frames.len()
            && frames[k].children@.len() > 0,
    decreases frames.len(),
{
    if frames.len() > 0 && frames.last().children@.len() == 0 {
        lemma_top_nonempty(frames.drop_last());
        assert(frames.drop_last().len() == frames.len() - 1);
        if let Some(k) = top_nonempty(frames.drop_last()) {
            assert(frames.drop_last()[k] == frames[k]);
        }
    }
}

impl TreeIterator {
    /// Starts a traversal of `tree` at the entry read for its root, at depth 0.
    pub fn new(tree: Tree, root: DirEntry) -> (r: TreeIterator)
        ensures
            r.wf(),
            r.start == Some(with_depth(root, 0)),
            r.frames@.len() == 0,
            r.visited@.len() == 0,
            r.awaiting is None,
            r.visit_all == tree.visit_all,
            r.dirs_only == tree.dirs_only,
            r.dirs_first == tree.dirs_first,
            r.rev_alpha_sort == tree.rev_alpha_sort,
            r.last_mod_sort == tree.last_mod_sort,
            r.follow_symlinks == tree.follow_symlinks,
            r.max_depth == tree.max_depth,
            r.pattern == tree.pattern,
    {
        let mut root = root;
        root.depth = 0;
        TreeIterator {
            start: Some(root),
            frames: Vec::new(),
            visited: Vec::new(),
            awaiting: None,
            visit_all: tree.visit_all,
            dirs_only: tree.dirs_only,
            dirs_first: tree.dirs_first,
            rev_alpha_sort: tree.rev_alpha_sort,
            last_mod_sort: tree.last_mod_sort,
            follow_symlinks: tree.follow_symlinks,
            max_depth: tree.max_depth,
            pattern: tree.pattern,
        }
    }

    /// Whether an entry at depth `d` lies within the depth limit.
    pub open spec fn within_limit(&self, d: usize) -> bool {
        self.max_depth matches Some(m) ==> d <= m
    }

    /// The state invariant: every entry waiting to be yielded lies within the
    /// depth limit, a directory waiting for its children lies below it, and
    /// when links are followed every open directory's identity is recorded.
    pub open spec fn wf(&self) -> bool {
        &&& (self.start matches Some(e) ==> e.depth == 0)
        &&& forall|k: int, i: int|
            0 <= k < self.frames@.len() && 0 <= i < self.frames@[k].children@.len()
                ==> self.within_limit(#[trigger] self.frames@[k].children@[i].depth)
        &&& (self.awaiting matches Some((_, e)) ==> self.expands(e))
        &&& self.follow_symlinks ==> forall|k: int|
            0 <= k < self.frames@.len() ==> (#[trigger] self.frames@[k].dir_id matches Some(
                id,
            ) ==> self.visited@.contains(id))
    }

    /// The identities of the directories whose frames are open.
    pub open spec fn open_ids(&self) -> Set<FileId> {
        Set::new(
            |id: FileId|
                exists|k: int|
                    0 <= k < self.frames@.len() && #[trigger] self.frames@[k].dir_id == Some(id),
        )
    }

    /// Following this link would re-enter a directory already entered.
    pub open spec fn recursive(&self, e: DirEntry) -> bool {
        &&& e.file_type == FileKind::Symlink
        &&& self.follow_symlinks
        &&& e.target matches Some(t) && self.visited@.contains(t.id)
    }

    /// The entry designates a directory: it is one, or it is a followed link
    /// to one.
    pub open spec fn designates_dir(&self, e: DirEntry) -> bool {
        ||| e.file_type == FileKind::Dir
        ||| {
            &&& e.file_type == FileKind::Symlink
            &&& self.follow_symlinks
            &&& e.target matches Some(t) && t.is_dir
        }
    }

    /// The walker opens the entry: a directory, not a recursive link, and
    /// above the depth limit.
    pub open spec fn expands(&self, e: DirEntry) -> bool {
        &&& !self.recursive(e)
        &&& self.designates_dir(e)
        &&& (self.max_depth matches Some(m) ==> e.depth < m)
        &&& e.depth < usize::MAX
    }

    /// The child survives the filters: hidden entries unless `visit_all`,
    /// non-directories under `dirs_only`, and non-directories that the
    /// pattern rejects.
    pub open spec fn kept(&self, c: DirEntry) -> bool {
        kept_by(self.visit_all, self.dirs_only, self.pattern)(c)
    }

    /// The children of a directory at depth `d` that survive the filters, at
    /// depth `d + 1`.
    pub open spec fn survivors(&self, children: Seq<DirEntry>, d: usize) -> Seq<DirEntry> {
        children.map_values(depth_fn((d + 1) as usize)).filter(self.kept_fn())
    }

    pub open spec fn kept_fn(&self) -> spec_fn(DirEntry) -> bool {
        kept_by(self.visit_all, self.dirs_only, self.pattern)
    }

    pub open spec fn less(&self, a: DirEntry, b: DirEntry) -> bool {
        sibling_less(a, b, self.dirs_first, self.last_mod_sort, self.rev_alpha_sort)
    }

    /// What handling entry `e` (with count `rem`) hands back, and what the
    /// walker then awaits.
    pub open spec fn handled(&self, rem: usize, e: DirEntry) -> (Step, Option<(usize, DirEntry)>) {
        if self.recursive(e) {
            (Step::Yield(rem, DirEntry { is_recursive_link: true, ..e }), None)
        } else if self.expands(e) {
            (Step::Read(e.path), Some((rem, e)))
        } else {
            (Step::Yield(rem, e), None)
        }
    }

    fn is_visited(&self, id: FileId) -> (r: bool)
        ensures
            r == self.visited@.contains(id),
    {
        let mut i: usize = 0;
        while i < self.visited.len()
            invariant
                i <= self.visited@.len(),
                forall|k: int| 0 <= k < i ==> self.visited@[k] != id,
            decreases self.visited@.len() - i,
        {
            if self.visited[i] == id {
                return true;
            }
            i = i + 1;
        }
        false
    }

    /// Handles entry `e`, taken with count `rem`: a link back into an entered
    /// directory is marked and yielded; a directory to open is awaited and
    /// its children asked for; anything else is yielded as it is.
    pub fn handle_entry(&mut self, rem: usize, e: DirEntry) -> (r: Step)
        requires
            old(self).wf(),
            old(self).awaiting is None,
        ensures
            final(self).wf(),
            (r, final(self).awaiting) == old(self).handled(rem, e),
            final(self).start == old(self).start,
            final(self).frames == old(self).frames,
            final(self).visited == old(self).visited,
            final(self).config_same(old(self)),
    {
        let mut e = e;
        let is_link = e.is_symlink();
        let mut target_known_dir = false;
        if is_link && self.follow_symlinks {
            match e.target {
                Some(t) => {
                    if self.is_visited(t.id) {
                        e.is_recursive_link = true;
                        return Step::Yield(rem, e);
                    }
                    target_known_dir = t.is_dir;
                },
                None => {},
            }
        }
        let is_dir = e.is_dir() || target_known_dir;
        let in_range = match self.max_depth {
            Some(m) => e.depth < m,
            None => true,
        };
        if is_dir && in_range && e.depth < usize::MAX {
            let path = e.path.clone();
            self.awaiting = Some((rem, e));
            Step::Read(path)
        } else {
            Step::Yield(rem, e)
        }
    }

    /// The configuration fields are those of `other`.
    pub open spec fn config_same(&self, other: &TreeIterator) -> bool {
        &&& self.visit_all == other.visit_all
        &&& self.dirs_only == other.dirs_only
        &&& self.dirs_first == other.dirs_first
        &&& self.rev_alpha_sort == other.rev_alpha_sort
        &&& self.last_mod_sort == other.last_mod_sort
        &&& self.follow_symlinks == other.follow_symlinks
        &&& self.max_depth == other.max_depth
        &&& self.pattern == other.pattern
    }

    /// Produces the next step of the traversal. A directory still awaiting
    /// its children is taken as one that could not be read: it is yielded
    /// with none. Otherwise the root comes first, with count 1; then the next
    /// child of the innermost open directory that has one, exhausted frames
    /// being closed on the way.
    pub fn step(&mut self) -> (r: Step)
        requires
            old(self).wf(),
        ensures
            final(self).wf(),
            final(self).config_same(old(self)),
            final(self).visited == old(self).visited,
            old(self).awaiting matches Some((rem, e)) ==> {
                &&& r == Step::Yield(rem, e)
                &&& final(self).awaiting is None
                &&& final(self).frames == old(self).frames
                &&& final(self).start == old(self).start
            },
            old(self).awaiting is None && old(self).start is Some ==> {
                &&& (r, final(self).awaiting) == old(self).handled(1, old(self).start->Some_0)
                &&& final(self).start is None
                &&& final(self).frames == old(self).frames
            },
            old(self).awaiting is None && old(self).start is None ==> match top_nonempty(
                old(self).frames@,
            ) {
                None => r == Step::Done && final(self).frames@.len() == 0 && final(self).awaiting is None,
                Some(k) => {
                    let f = old(self).frames@[k];
                    let n = f.children@.len();
                    &&& (r, final(self).awaiting) == old(self).handled(
                        n as usize,
                        f.children@[n - 1],
                    )
                    &&& final(self).frames@.len() == k + 1
                    &&& final(self).frames@.subrange(0, k) == old(self).frames@.subrange(0, k)
                    &&& final(self).frames@[k].children@ == f.children@.drop_last()
                    &&& final(self).frames@[k].dir_id == f.dir_id
                    &&& final(self).start is None
                },
            },
            r matches Step::Yield(_, e) ==> final(self).within_limit(e.depth),
            r matches Step::Read(_) ==> final(self).awaiting is Some,
    {
        if let Some((rem, e)) = self.awaiting.take() {
            return Step::Yield(rem, e);
        }
        if let Some(root) = self.start.take() {
            let r = self.handle_entry(1, root);
            return r;
        }
        let ghost frames0 = self.frames@;
        assert(frames0 == old(self).frames@);
        while self.frames.len() > 0
            invariant
                self.wf(),
                self.awaiting is None,
                self.start is None,
                old(self).awaiting is None,
                old(self).start is None,
                self.config_same(old(self)),
                self.visited == old(self).visited,
                self.frames@.len() <= frames0.len(),
                self.frames@ == frames0.subrange(0, self.frames@.len() as int),
                top_nonempty(frames0) == top_nonempty(self.frames@),
                frames0 == old(self).frames@,
            decreases self.frames@.len(),
        {
            let ghost before = self.frames@;
            let mut top = self.frames.pop().unwrap();
            assert(before == self.frames@.push(top));
            assert(self.frames@ =~= before.drop_last());
            let rem = top.children.len();
            match top.children.pop() {
                Some(e) => {
                    assert(before.last().children@.len() > 0);
                    let ghost mid = self.frames@;
                    self.frames.push(top);
                    assert forall|k: int, i: int|
                        0 <= k < self.frames@.len() && 0 <= i < self.frames@[k].children@.len()
                            implies self.within_limit(#[trigger] self.frames@[k].children@[i].depth) by {
                        if k < mid.len() {
                            assert(self.frames@[k] == before[k]);
                        } else {
                            assert(self.frames@[k].children@[i] == before[k].children@[i]);
                        }
                    }
                    assert(self.within_limit(e.depth)) by {
                        assert(e == before[before.len() - 1].children@[before.last().children@.len() - 1]);
                    }
                    assert forall|k: int|
                        0 <= k < self.frames@.len() && self.follow_symlinks implies (
                        #[trigger] self.frames@[k].dir_id matches Some(id) ==> self.visited@.contains(id)) by {
                        assert(self.frames@[k].dir_id == before[k].dir_id);
                    }
                    let ghost pre = *self;
                    let r = self.handle_entry(rem, e);
                    proof {
                        assert(e == before.last().children@.last());
                        assert(rem == before.last().children@.len());
                        assert(pre.handled(rem, e) == old(self).handled(rem, e));
                        let k = before.len() - 1;
                        assert(top_nonempty(before) == Some(k));
                        assert(frames0[k] == before[k]);
                        assert(self.frames@.subrange(0, k) =~= frames0.subrange(0, k));
                    }
                    return r;
                },
                None => {
                    assert(top_nonempty(before) == top_nonempty(self.frames@));
                },
            }
        }
        Step::Done
    }

    fn keeps(&self, c: &DirEntry) -> (r: bool)
        ensures
            r == self.kept(*c),
    {
        if !self.visit_all && c.is_hidden() {
            return false;
        }
        if self.dirs_only && !c.is_dir() {
            return false;
        }
        if c.is_dir() {
            return true;
        }
        match &self.pattern {
            Some(p) => {
                let name = match c.get_name() {
                    Some(n) => n,
                    None => c.path(),
                };
                p.is_match(name) == p.is_inclusive()
            },
            None => true,
        }
    }

    fn sibling_lt(&self, a: &DirEntry, b: &DirEntry) -> (r: bool)
        ensures
            r == self.less(*a, *b),
    {
        let a_dir = a.is_dir();
        let b_dir = b.is_dir();
        if self.dirs_first && a_dir != b_dir {
            return a_dir;
        }
        if self.last_mod_sort && a.metadata.modified != b.metadata.modified {
            return a.metadata.modified < b.metadata.modified;
        }
        let (x, y) = if self.rev_alpha_sort {
            (b, a)
        } else {
            (a, b)
        };
        let xc = x.get_clean_name();
        let yc = y.get_clean_name();
        if str_less(xc, yc) {
            return true;
        }
        if str_less(yc, xc) {
            return false;
        }
        proof {
            if xc@ != yc@ {
                crate::order::lemma_seq_less_total(xc@, yc@);
            }
        }
        let xr = match x.get_name() {
            Some(n) => n,
            None => x.path(),
        };
        let yr = match y.get_name() {
            Some(n) => n,
            None => y.path(),
        };
        str_less(xr, yr)
    }

    /// Puts `e` into `out`, which keeps the frame order.
    fn insert_sorted(&self, out: &mut Vec<DirEntry>, e: DirEntry)
        requires
            sorted_desc(old(out)@, self.dirs_first, self.last_mod_sort, self.rev_alpha_sort),
        ensures
            sorted_desc(final(out)@, self.dirs_first, self.last_mod_sort, self.rev_alpha_sort),
            final(out)@.to_multiset() == old(out)@.to_multiset().insert(e),
    {
        let mut k: usize = 0;
        while k < out.len() && !self.sibling_lt(&out[k], &e)
            invariant
                k <= out@.len(),
                forall|i: int| 0 <= i < k ==> !self.less(#[trigger] out@[i], e),
            decreases out@.len() - k,
        {
            k = k + 1;
        }
        let ghost before = out@;
        out.insert(k, e);
        proof {
            assert(out@ == before.insert(k as int, e));
            assert(out@.remove(k as int) =~= before);
            assert(out@[k as int] == e);
            assert(out@.to_multiset().count(e) > 0);
            assert(out@.to_multiset().remove(e) == before.to_multiset());
            assert(out@.to_multiset() =~= before.to_multiset().insert(e));
            let df = self.dirs_first;
            let lm = self.last_mod_sort;
            let rv = self.rev_alpha_sort;
            assert forall|i: int, j: int|
                0 <= i < j < out@.len() implies !sibling_less(#[trigger] out@[i], #[trigger] out@[j], df, lm, rv) by {
                if j < k {
                    assert(out@[i] == before[i] && out@[j] == before[j]);
                } else if j == k {
                    assert(out@[i] == before[i]);
                } else if i == k {
                    assert(out@[j] == before[j - 1]);
                    assert(k < before.len());
                    assert(self.less(before[k as int], e));
                    lemma_sibling_order_strict_total(before[k as int], e, before[j - 1], df, lm, rv);
                    lemma_sibling_order_strict_total(e, before[j - 1], e, df, lm, rv);
                    if j - 1 > k {
                        assert(!sibling_less(before[k as int], before[j - 1], df, lm, rv));
                    }
                } else if i > k {
                    assert(out@[i] == before[i - 1] && out@[j] == before[j - 1]);
                } else {
                    assert(out@[i] == before[i] && out@[j] == before[j - 1]);
                }
            }
        }
    }

    /// Hands over the children read for the directory awaited: each is put
    /// one level below it, the filters drop some, the rest open a new frame
    /// in sibling order, and the directory itself comes back to be yielded.
    /// With links followed, its identity is recorded first. Nothing happens
    /// when no directory is awaited.
    pub fn expand(&mut self, children: Vec<DirEntry>) -> (r: Option<(usize, DirEntry)>)
        requires
            old(self).wf(),
        ensures
            final(self).wf(),
            final(self).config_same(old(self)),
            final(self).start == old(self).start,
            final(self).awaiting is None,
            r == old(self).awaiting,
            old(self).awaiting is None ==> final(self).frames == old(self).frames && final(self).visited == old(self).visited,
            old(self).awaiting matches Some((_, e)) ==> {
                let f = final(self).frames@.last();
                &&& final(self).frames@.len() == old(self).frames@.len() + 1
                &&& final(self).frames@.drop_last() == old(self).frames@
                &&& f.dir_id == (match e.target {
                    Some(t) => Some(t.id),
                    None => None::<FileId>,
                })
                &&& f.children@.to_multiset() == old(self).survivors(children@, e.depth).to_multiset()
                &&& sorted_desc(f.children@, old(self).dirs_first, old(self).last_mod_sort, old(self).rev_alpha_sort)
                &&& final(self).visited@ == if old(self).follow_symlinks && e.target is Some {
                    old(self).visited@.push(e.target->Some_0.id)
                } else {
                    old(self).visited@
                }
            },
            r matches Some((_, e)) ==> final(self).within_limit(e.depth),
    {
        let (rem, e) = match self.awaiting.take() {
            Some(p) => p,
            None => {
                return None;
            },
        };
        let d: usize = e.depth + 1;
        let ghost all = self.survivors(children@, e.depth);
        let mut children = children;
        let mut out: Vec<DirEntry> = Vec::new();
        proof {
            assert(self.survivors(children@, e.depth) == children@.map_values(depth_fn(d)).filter(self.kept_fn()));
        }
        while children.len() > 0
            invariant
                self.awaiting is None,
                sorted_desc(out@, self.dirs_first, self.last_mod_sort, self.rev_alpha_sort),
                out@.to_multiset().add(children@.map_values(depth_fn(d)).filter(self.kept_fn()).to_multiset())
                    == all.to_multiset(),
                forall|i: int| 0 <= i < out@.len() ==> (#[trigger] out@[i]).depth == d,
            decreases children@.len(),
        {
            let ghost before = children@;
            let mut c = children.pop().unwrap();
            let ghost c0 = c;
            proof {
                assert(before == children@.push(c0));
                assert(before.map_values(depth_fn(d)) =~= children@.map_values(depth_fn(d)).push(depth_fn(d)(c0)));
                children@.map_values(depth_fn(d)).lemma_filter_push(depth_fn(d)(c0), self.kept_fn());
            }
            c.depth = d;
            assert(c == with_depth(c0, d));
            assert(c == depth_fn(d)(c0));
            if self.keeps(&c) {
                let ghost o = out@;
                assert(self.kept_fn()(c));
                assert(before.map_values(depth_fn(d)).filter(self.kept_fn()) == children@.map_values(depth_fn(d)).filter(self.kept_fn()).push(c));
                self.insert_sorted(&mut out, c);
                proof {
                    assert(out@.to_multiset() == o.to_multiset().insert(c));
                    assert forall|i: int| 0 <= i < out@.len() implies (#[trigger] out@[i]).depth == d by {
                        assert(out@.to_multiset().count(out@[i]) > 0);
                        if out@[i] != c {
                            assert(o.to_multiset().count(out@[i]) > 0);
                            assert(o.contains(out@[i]));
                        }
                    }
                    let rest = children@.map_values(depth_fn(d)).filter(self.kept_fn());
                    assert(rest.push(c).to_multiset() == rest.to_multiset().insert(c));
                    assert(out@.to_multiset().add(rest.to_multiset())
                        =~= o.to_multiset().add(rest.push(c).to_multiset()));
                }
            } else {
                proof {
                    assert(before.map_values(depth_fn(d)).filter(self.kept_fn()) == children@.map_values(depth_fn(d)).filter(self.kept_fn()));
                }
            }
        }
        proof {
            assert(children@.map_values(depth_fn(d)).filter(self.kept_fn()) =~= Seq::<DirEntry>::empty());
            assert(out@.to_multiset() =~= all.to_multiset());
        }
        let dir_id = match e.target {
            Some(t) => Some(t.id),
            None => None,
        };
        if self.follow_symlinks {
            match e.target {
                Some(t) => {
                    self.visited.push(t.id);
                },
                None => {},
            }
        }
        let ghost old_frames = self.frames@;
        self.frames.push(Frame { children: out, dir_id });
        proof {
            assert(self.frames@.drop_last() =~= old_frames);
            assert forall|k: int, i: int|
                0 <= k < self.frames@.len() && 0 <= i < self.frames@[k].children@.len()
                    implies self.within_limit(#[trigger] self.frames@[k].children@[i].depth) by {
                if k < old_frames.len() {
                    assert(self.frames@[k] == old_frames[k]);
                }
            }
            assert forall|k: int|
                0 <= k < self.frames@.len() && self.follow_symlinks implies (
                #[trigger] self.frames@[k].dir_id matches Some(id) ==> self.visited@.contains(id)) by {
                if k < old_frames.len() {
                    assert(self.frames@[k] == old_frames[k]);
                    if let Some(id) = old_frames[k].dir_id {
                        assert(old(self).visited@.contains(id));
                        let j = choose|j: int| 0 <= j < old(self).visited@.len() && old(self).visited@[j] == id;
                        assert(self.visited@[j] == id);
                    }
                } else {
                    if let Some(t) = e.target {
                        assert(self.visited@[self.visited@.len() - 1] == t.id);
                    }
                }
            }
        }
        Some((rem, e))
    }
}

/// A link whose target is the directory of an open frame is never opened
/// again: with links followed, handling it yields it marked as a recursive
/// link and asks for no read.
pub proof fn lemma_link_to_open_dir_is_marked(it: TreeIterator, rem: usize, e: DirEntry)
    requires
        it.wf(),
        it.follow_symlinks,
        e.file_type == FileKind::Symlink,
        e.target matches Some(t) && it.open_ids().contains(t.id),
    ensures
        it.handled(rem, e).0 == Step::Yield(rem, DirEntry { is_recursive_link: true, ..e }),
        it.handled(rem, e).1 is None,
{
    let t = e.target->Some_0;
    let k = choose|k: int| 0 <= k < it.frames@.len() && #[trigger] it.frames@[k].dir_id == Some(t.id);
    assert(it.frames@[k].dir_id == Some(t.id));
}

/// Under a depth limit `D`, nothing yielded lies deeper than `D`, and an
/// entry at depth `D` is never opened.
pub proof fn lemma_depth_limit(it: TreeIterator, rem: usize, e: DirEntry)
    requires
        it.max_depth is Some,
        e.depth >= it.max_depth->Some_0,
    ensures
        it.handled(rem, e).1 is None,
        it.handled(rem, e).0 !is Read,
{
}

} // verus!
