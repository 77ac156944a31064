use vstd::prelude::*;

use crate::flags::Flags;
use crate::text::{push_char, push_str};

verus! {

/// What kind of filesystem node an entry is, read once from its metadata.
#[derive(Clone, Copy, Debug, PartialEq, Eq, Structural)]
pub enum FileKind {
    File,
    Dir,
    Symlink,
    Other,
}

/// The stable identity of a filesystem object: device id and inode number.
#[derive(Clone, Copy, Debug, PartialEq, Eq, Structural)]
pub struct FileId {
    pub dev: u64,
    pub ino: u64,
}

/// What an entry designates once symbolic links are followed: its identity and
/// whether it is a directory.
#[derive(Clone, Copy, Debug, PartialEq, Eq, Structural)]
pub struct Target {
    pub id: FileId,
    pub is_dir: bool,
}

/// The metadata of an entry that the walker and the formatting layer read.
/// `modified` is in nanoseconds since the Unix epoch.
#[derive(Clone, Copy, Debug, PartialEq, Eq, Structural)]
pub struct EntryMeta {
    pub size: u64,
    pub modified: u128,
    pub mode: u32,
    pub uid: u32,
    pub gid: u32,
    pub ino: u64,
    pub dev: u64,
}

/// Which extended field of the metadata to render.
#[derive(Clone, Copy, Debug, PartialEq, Eq, Structural)]
pub enum ExtData {
    Inode,
    Gid,
    Uid,
    Device,
    Permissions,
}

pub const S_IFMT: u32 = 0o170000;

pub const NON_LEAP_YEAR: u64 = 31536000;

pub const LEAP_YEAR: u64 = 31622400;

pub const KB: u64 = 1000;

pub const MB: u64 = 1000000;

pub const S_IFSOCK: u32 = 0o140000;

pub const S_IFIFO: u32 = 0o10000;

/// One filesystem node as the walker sees it.
pub struct DirEntry {
    /// The path as given by the directory read or the root argument.
    pub path: String,
    /// The final component of the path, if it has one.
    pub name: Option<String>,
    /// 0 for the root, one more per level of descent.
    pub depth: usize,
    pub file_type: FileKind,
    /// The raw target of a symbolic link.
    pub linked_path: Option<String>,
    /// What the entry designates, links followed; `None` when a link could
    /// not be resolved.
    pub target: Option<Target>,
    pub metadata: EntryMeta,
    /// Set when following this link would re-enter a directory already open.
    pub is_recursive_link: bool,
}

/// The target of an entry that is not a link: the node itself.
pub open spec fn own_target(kind: FileKind, meta: EntryMeta) -> Target {
    Target { id: FileId { dev: meta.dev, ino: meta.ino }, is_dir: kind == FileKind::Dir }
}

/// A name with one leading `.` taken off.
pub open spec fn strip_dot(n: Seq<char>) -> Seq<char> {
    if n.len() > 0 && n[0] == '.' {
        n.skip(1)
    } else {
        n
    }
}

/// The nine permission characters of `mode`, owner first.
pub open spec fn rwx(mode: u32) -> Seq<char> {
    seq![
        if mode & 0o400u32 != 0 { 'r' } else { '-' },
        if mode & 0o200u32 != 0 { 'w' } else { '-' },
        if mode & 0o100u32 != 0 { 'x' } else { '-' },
        if mode & 0o040u32 != 0 { 'r' } else { '-' },
        if mode & 0o020u32 != 0 { 'w' } else { '-' },
        if mode & 0o010u32 != 0 { 'x' } else { '-' },
        if mode & 0o004u32 != 0 { 'r' } else { '-' },
        if mode & 0o002u32 != 0 { 'w' } else { '-' },
        if mode & 0o001u32 != 0 { 'x' } else { '-' },
    ]
}

/// The first character of a permission string.
pub open spec fn kind_char(kind: FileKind, mode: u32) -> char {
    if kind == FileKind::Dir {
        'd'
    } else if kind == FileKind::Symlink {
        'l'
    } else if mode & S_IFMT == S_IFIFO {
        'p'
    } else if mode & S_IFMT == S_IFSOCK {
        's'
    } else {
        '-'
    }
}

pub open spec fn digit_char(d: nat) -> char {
    (('0' as u32 + d) as u8) as char
}

/// The decimal digits of `n`, most significant first.
pub open spec fn decimal(n: nat) -> Seq<char>
    decreases n,
{
    if n < 10 {
        seq![digit_char(n)]
    } else {
        decimal(n / 10).push(digit_char(n % 10))
    }
}

/// Appends the decimal digits of `n` to `out`.
pub fn push_decimal(out: &mut String, n: u64)
    ensures
        final(out)@ == old(out)@ + decimal(n as nat),
    decreases n,
{
    if n >= 10 {
        push_decimal(out, n / 10);
    }
    let d: u8 = (n % 10) as u8;
    push_char(out, (48u8 + d) as char);
    assert(final(out)@ =~= old(out)@ + decimal(n as nat));
}

/// The decimal rendering of `n`.
pub fn decimal_string(n: u64) -> (r: String)
    ensures
        r@ == decimal(n as nat),
{
    let mut s = String::new();
    push_decimal(&mut s, n);
    assert(s@ =~= decimal(n as nat));
    s
}

/// Whole years in `t` seconds counted from 1970, every fourth year from the
/// third on being a leap year, and the seconds left over. Counting stops
/// when less than the current year is left.
pub open spec fn years_from(t: nat, count: nat, next_leap: nat) -> (nat, nat)
    decreases t,
{
    if count == next_leap {
        if t >= LEAP_YEAR {
            years_from((t - LEAP_YEAR) as nat, count + 1, next_leap + 4)
        } else {
            (count, t)
        }
    } else if t >= NON_LEAP_YEAR {
        years_from((t - NON_LEAP_YEAR) as nat, count + 1, next_leap)
    } else {
        (count, t)
    }
}

/// Years since 1970 in `time` seconds, and the seconds left over.
pub fn calc_years(time: u64) -> (r: (u64, u64))
    ensures
        (r.0 as nat, r.1 as nat) == years_from(time as nat, 0, 2),
{
    let mut count: u64 = 0;
    let mut next_leap_year: u64 = 2;
    let mut current = time;
    while current >= NON_LEAP_YEAR
        invariant
            years_from(time as nat, 0, 2) == years_from(current as nat, count as nat, next_leap_year as nat),
            count as int * 31536000 <= time as int - current as int,
            next_leap_year <= 2 + 4 * count,
        decreases current,
    {
        if count == next_leap_year {
            if current < LEAP_YEAR {
                assert(years_from(current as nat, count as nat, next_leap_year as nat) == (count as nat, current as nat));
                return (count, current);
            }
            current = current - LEAP_YEAR;
            next_leap_year = next_leap_year + 4;
        } else {
            current = current - NON_LEAP_YEAR;
        }
        count = count + 1;
    }
    assert(years_from(current as nat, count as nat, next_leap_year as nat) == (count as nat, current as nat));
    (count, current)
}

/// The size in the short form: whole megabytes or kilobytes and a digit
/// group after the point, or plain bytes.
pub open spec fn human_size(bytes: u64) -> Seq<char> {
    if bytes > MB {
        decimal((bytes / MB) as nat) + "."@ + decimal(((bytes % MB) / 100) as nat) + " M"@
    } else if bytes < KB {
        decimal(bytes as nat) + " B"@
    } else {
        decimal((bytes / KB) as nat) + "."@ + decimal(((bytes % KB) / 100) as nat) + " K"@
    }
}

/// Parts joined with single spaces.
pub open spec fn join_spaced(parts: Seq<Seq<char>>) -> Seq<char>
    decreases parts.len(),
{
    if parts.len() == 0 {
        Seq::empty()
    } else if parts.len() == 1 {
        parts[0]
    } else {
        join_spaced(parts.drop_last()) + " "@ + parts.last()
    }
}

/// Whole seconds of a time in nanoseconds, at most the largest `u64`.
pub open spec fn whole_seconds(nanos: u128) -> u64 {
    if nanos / 1000000000 > u64::MAX as u128 {
        u64::MAX
    } else {
        (nanos / 1000000000) as u64
    }
}

fn push_part(out: &mut String, first: bool, part: &str, parts: Ghost<Seq<Seq<char>>>)
    requires
        old(out)@ == join_spaced(parts@),
        first <==> parts@.len() == 0,
    ensures
        final(out)@ == join_spaced(parts@.push(part@)),
{
    proof {
        assert(parts@.push(part@).drop_last() =~= parts@);
    }
    if !first {
        push_str(out, " ");
    }
    push_str(out, part);
    proof {
        if first {
            assert(final(out)@ =~= part@);
        }
    }
}

fn push_flag(out: &mut String, mode: u32, bit: u32, c: char)
    ensures
        final(out)@ == old(out)@.push(if mode & bit != 0 { c } else { '-' }),
{
    if mode & bit != 0 {
        push_char(out, c);
    } else {
        push_char(out, '-');
    }
}

impl DirEntry {
    /// The invariant of an entry: a link target text exactly on links, and a
    /// non-link designates itself.
    pub open spec fn wf(&self) -> bool {
        &&& (self.linked_path is Some <==> self.file_type == FileKind::Symlink)
        &&& (self.file_type != FileKind::Symlink ==> self.target == Some(
            own_target(self.file_type, self.metadata),
        ))
    }

    /// The name used to order entries: the file name with one leading `.`
    /// taken off, or the whole path when there is no file name.
    pub open spec fn clean_name(&self) -> Seq<char> {
        match self.name {
            Some(n) => strip_dot(n@),
            None => self.path@,
        }
    }

    /// The name that patterns are matched against: the file name, or the whole
    /// path when there is no file name.
    pub open spec fn raw_name(&self) -> Seq<char> {
        match self.name {
            Some(n) => n@,
            None => self.path@,
        }
    }

    pub open spec fn hidden(&self) -> bool {
        self.name matches Some(n) && n@.len() > 0 && n@[0] == '.'
    }

    /// Builds an entry from what was read of a node. A link keeps its raw
    /// target text and `link_target`, what following it reaches; any other
    /// node designates itself. A link whose target text could not be read
    /// gives no entry.
    pub fn from_parts(
        path: String,
        name: Option<String>,
        depth: usize,
        file_type: FileKind,
        linked_path: Option<String>,
        link_target: Option<Target>,
        metadata: EntryMeta,
    ) -> (r: Option<DirEntry>)
        ensures
            r is Some <==> (file_type == FileKind::Symlink ==> linked_path is Some),
            r matches Some(e) ==> {
                &&& e.wf()
                &&& e.path == path
                &&& e.name == name
                &&& e.depth == depth
                &&& e.file_type == file_type
                &&& e.metadata == metadata
                &&& !e.is_recursive_link
                &&& (file_type == FileKind::Symlink ==> e.linked_path == linked_path && e.target
                    == link_target)
            },
    {
        if file_type == FileKind::Symlink {
            if linked_path.is_none() {
                return None;
            }
            Some(
                DirEntry {
                    path,
                    name,
                    depth,
                    file_type,
                    linked_path,
                    target: link_target,
                    metadata,
                    is_recursive_link: false,
                },
            )
        } else {
            let own = Target {
                id: FileId { dev: metadata.dev, ino: metadata.ino },
                is_dir: file_type == FileKind::Dir,
            };
            Some(
                DirEntry {
                    path,
                    name,
                    depth,
                    file_type,
                    linked_path: None,
                    target: Some(own),
                    metadata,
                    is_recursive_link: false,
                },
            )
        }
    }

    /// The file name with one leading `.` taken off (the path when there is
    /// no file name).
    pub fn get_clean_name(&self) -> (r: &str)
        ensures
            r@ == self.clean_name(),
    {
        match &self.name {
            Some(n) => {
                let s = n.as_str();
                let len = s.unicode_len();
                if len > 0 && s.get_char(0) == '.' {
                    s.substring_char(1, len)
                } else {
                    s
                }
            },
            None => self.path.as_str(),
        }
    }

    /// Whether the file name starts with `.`.
    pub fn is_hidden(&self) -> (r: bool)
        ensures
            r == self.hidden(),
    {
        match &self.name {
            Some(n) => {
                let s = n.as_str();
                s.unicode_len() > 0 && s.get_char(0) == '.'
            },
            None => false,
        }
    }

    /// The final component of the path, if it has one.
    pub fn get_name(&self) -> (r: Option<&str>)
        ensures
            r is Some <==> self.name is Some,
            r matches Some(n) ==> n@ == self.name->Some_0@,
    {
        match &self.name {
            Some(n) => Some(n.as_str()),
            None => None,
        }
    }

    pub fn get_depth(&self) -> (r: usize)
        ensures
            r == self.depth,
    {
        self.depth
    }

    pub fn path(&self) -> (r: &str)
        ensures
            r@ == self.path@,
    {
        self.path.as_str()
    }

    pub fn linked_path(&self) -> (r: Option<&str>)
        ensures
            r is Some <==> self.linked_path is Some,
            r matches Some(p) ==> p@ == self.linked_path->Some_0@,
    {
        match &self.linked_path {
            Some(p) => Some(p.as_str()),
            None => None,
        }
    }

    pub fn is_dir(&self) -> (r: bool)
        ensures
            r == (self.file_type == FileKind::Dir),
    {
        self.file_type == FileKind::Dir
    }

    pub fn is_symlink(&self) -> (r: bool)
        ensures
            r == (self.file_type == FileKind::Symlink),
    {
        self.file_type == FileKind::Symlink
    }

    /// A non-directory with any execute bit set.
    pub fn is_executable(&self) -> (r: bool)
        ensures
            r == (self.file_type != FileKind::Dir && self.metadata.mode & 0o111u32 != 0),
    {
        !self.is_dir() && self.metadata.mode & 0o111u32 != 0
    }

    /// The name of the color class of this entry.
    pub fn get_file_type(&self) -> (r: &'static str)
        ensures
            r@ == (if self.file_type == FileKind::Symlink {
                "sym_link"@
            } else if self.file_type == FileKind::Dir {
                "directory"@
            } else if self.metadata.mode & 0o111u32 != 0 {
                "executable"@
            } else {
                ""@
            }),
    {
        if self.is_symlink() {
            "sym_link"
        } else if self.is_dir() {
            "directory"
        } else if self.is_executable() {
            "executable"
        } else {
            ""
        }
    }

    /// The character that marks the kind of the entry after its name.
    pub fn get_identity_character(&self) -> (r: &'static str)
        ensures
            r@ == (if self.file_type == FileKind::Symlink {
                ""@
            } else if self.file_type == FileKind::Dir {
                "/"@
            } else if self.metadata.mode & S_IFMT == S_IFIFO {
                "|"@
            } else if self.metadata.mode & S_IFMT == S_IFSOCK {
                "="@
            } else {
                "*"@
            }),
    {
        let mode = self.metadata.mode;
        if self.is_symlink() {
            ""
        } else if self.is_dir() {
            "/"
        } else if mode & S_IFMT == S_IFIFO {
            "|"
        } else if mode & S_IFMT == S_IFSOCK {
            "="
        } else {
            "*"
        }
    }

    /// Modification time, in nanoseconds since the Unix epoch.
    pub fn get_last_modified(&self) -> (r: u128)
        ensures
            r == self.metadata.modified,
    {
        self.metadata.modified
    }

    pub fn get_size(&self) -> (r: u64)
        ensures
            r == self.metadata.size,
    {
        self.metadata.size
    }

    /// The metadata parts that `flags` ask for, in their fixed order.
    pub open spec fn info_parts(&self, flags: &Flags) -> Seq<Seq<char>> {
        let m = self.metadata;
        let q0 = Seq::<Seq<char>>::empty();
        let q1 = if flags.protections {
            q0.push(seq![kind_char(self.file_type, m.mode)] + rwx(m.mode))
        } else {
            q0
        };
        let q2 = if flags.size && !flags.human_readable_size {
            q1.push(decimal(m.size as nat) + " B"@)
        } else {
            q1
        };
        let q3 = if flags.human_readable_size {
            q2.push(human_size(m.size))
        } else {
            q2
        };
        let q4 = if flags.last_modified {
            q3.push(decimal(years_from(whole_seconds(m.modified) as nat, 0, 2).0))
        } else {
            q3
        };
        let q5 = if flags.inode {
            q4.push(decimal(m.ino as nat))
        } else {
            q4
        };
        let q6 = if flags.group {
            q5.push(decimal(m.gid as nat))
        } else {
            q5
        };
        let q7 = if flags.device {
            q6.push(decimal(m.dev as nat))
        } else {
            q6
        };
        if flags.username {
            q7.push(decimal(m.uid as nat))
        } else {
            q7
        }
    }

    /// The bracketed metadata that `flags` ask for, followed by a space, or
    /// nothing when they ask for none.
    pub fn get_additional_info(&self, flags: &Flags) -> (r: String)
        ensures
            r@ == if self.info_parts(flags).len() == 0 {
                Seq::empty()
            } else {
                "["@ + join_spaced(self.info_parts(flags)) + "] "@
            },
    {
        let m = self.metadata;
        let mut body = String::new();
        let ghost mut parts = Seq::<Seq<char>>::empty();
        let mut first = true;
        if flags.protections {
            let s = self.get_ext_data(ExtData::Permissions);
            push_part(&mut body, first, s.as_str(), Ghost(parts));
            proof { parts = parts.push(s@); }
            first = false;
        }
        if flags.size && !flags.human_readable_size {
            let mut s = decimal_string(m.size);
            push_str(&mut s, " B");
            push_part(&mut body, first, s.as_str(), Ghost(parts));
            proof { parts = parts.push(s@); }
            first = false;
        }
        if flags.human_readable_size {
            let bytes = m.size;
            let mut s = String::new();
            if bytes > MB {
                push_decimal(&mut s, bytes / MB);
                push_str(&mut s, ".");
                push_decimal(&mut s, (bytes % MB) / 100);
                push_str(&mut s, " M");
            } else if bytes < KB {
                push_decimal(&mut s, bytes);
                push_str(&mut s, " B");
            } else {
                push_decimal(&mut s, bytes / KB);
                push_str(&mut s, ".");
                push_decimal(&mut s, (bytes % KB) / 100);
                push_str(&mut s, " K");
            }
            assert(s@ =~= human_size(bytes));
            push_part(&mut body, first, s.as_str(), Ghost(parts));
            proof { parts = parts.push(s@); }
            first = false;
        }
        if flags.last_modified {
            let q = m.modified / 1000000000;
            let secs: u64 = if q > u64::MAX as u128 {
                u64::MAX
            } else {
                q as u64
            };
            let (years, _) = calc_years(secs);
            let s = decimal_string(years);
            push_part(&mut body, first, s.as_str(), Ghost(parts));
            proof { parts = parts.push(s@); }
            first = false;
        }
        if flags.inode {
            let s = decimal_string(m.ino);
            push_part(&mut body, first, s.as_str(), Ghost(parts));
            proof { parts = parts.push(s@); }
            first = false;
        }
        if flags.group {
            let s = decimal_string(m.gid as u64);
            push_part(&mut body, first, s.as_str(), Ghost(parts));
            proof { parts = parts.push(s@); }
            first = false;
        }
        if flags.device {
            let s = decimal_string(m.dev);
            push_part(&mut body, first, s.as_str(), Ghost(parts));
            proof { parts = parts.push(s@); }
            first = false;
        }
        if flags.username {
            let s = decimal_string(m.uid as u64);
            push_part(&mut body, first, s.as_str(), Ghost(parts));
            proof { parts = parts.push(s@); }
            first = false;
        }
        assert(parts == self.info_parts(flags));
        if first {
            return String::new();
        }
        let mut out = String::new();
        push_str(&mut out, "[");
        push_str(&mut out, body.as_str());
        push_str(&mut out, "] ");
        out
    }

    /// One extended field of the metadata, rendered: a number in decimal, or
    /// the ten-character permission string.
    pub fn get_ext_data(&self, ext_data: ExtData) -> (r: String)
        ensures
            r@ == match ext_data {
                ExtData::Inode => decimal(self.metadata.ino as nat),
                ExtData::Gid => decimal(self.metadata.gid as nat),
                ExtData::Uid => decimal(self.metadata.uid as nat),
                ExtData::Device => decimal(self.metadata.dev as nat),
                ExtData::Permissions => seq![kind_char(self.file_type, self.metadata.mode)] + rwx(
                    self.metadata.mode,
                ),
            },
    {
        match ext_data {
            ExtData::Inode => decimal_string(self.metadata.ino),
            ExtData::Gid => decimal_string(self.metadata.gid as u64),
            ExtData::Uid => decimal_string(self.metadata.uid as u64),
            ExtData::Device => decimal_string(self.metadata.dev),
            ExtData::Permissions => {
                let mode = self.metadata.mode;
                let first = if self.is_dir() {
                    'd'
                } else if self.is_symlink() {
                    'l'
                } else if mode & S_IFMT == S_IFIFO {
                    'p'
                } else if mode & S_IFMT == S_IFSOCK {
                    's'
                } else {
                    '-'
                };
                let mut out = String::new();
                push_char(&mut out, first);
                push_flag(&mut out, mode, 0o400, 'r');
                push_flag(&mut out, mode, 0o200, 'w');
                push_flag(&mut out, mode, 0o100, 'x');
                push_flag(&mut out, mode, 0o040, 'r');
                push_flag(&mut out, mode, 0o020, 'w');
                push_flag(&mut out, mode, 0o010, 'x');
                push_flag(&mut out, mode, 0o004, 'r');
                push_flag(&mut out, mode, 0o002, 'w');
                push_flag(&mut out, mode, 0o001, 'x');
                assert(out@ =~= seq![kind_char(self.file_type, mode)] + rwx(mode));
                out
            },
        }
    }
}

} // verus!
