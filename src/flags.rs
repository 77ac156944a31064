use vstd::prelude::*;

use crate::colors::{digits_value, lemma_digits_value_grows};
use crate::order::str_eq;
use crate::text::{push_char, push_str};

verus! {

/// The options of one run, as the command line gives them.
pub struct Flags {
    pub dir_path: Option<String>,
    pub help: bool,
    pub version: bool,
    pub all: bool,
    pub dirs: bool,
    pub full_path: bool,
    pub no_indent: bool,
    pub follow_symlinks: bool,
    pub pattern_match: Option<String>,
    pub pattern_exclude: Option<String>,
    pub prune: bool,
    pub limit: Option<usize>,
    pub time_fmt: Option<String>,
    pub no_report: bool,
    pub protections: bool,
    pub size: bool,
    pub human_readable_size: bool,
    pub username: bool,
    pub group: bool,
    pub last_modified: bool,
    pub inode: bool,
    pub device: bool,
    pub identify: bool,
    pub unprintable_question_mark: bool,
    pub unprintable_as_is: bool,
    pub reverse_alpha_sort: bool,
    pub last_modified_sort: bool,
    pub dirs_first: bool,
    pub output_file: Option<String>,
    pub no_colors: bool,
    pub colors: bool,
    pub max_depth: Option<usize>,
}

impl Flags {
    /// No option set.
    pub fn new() -> (r: Flags)
        ensures
            r == default_flags(),
    {
        Flags {
            dir_path: None,
            help: false,
            version: false,
            all: false,
            dirs: false,
            full_path: false,
            no_indent: false,
            follow_symlinks: false,
            pattern_match: None,
            pattern_exclude: None,
            prune: false,
            limit: None,
            time_fmt: None,
            no_report: false,
            protections: false,
            size: false,
            human_readable_size: false,
            username: false,
            group: false,
            last_modified: false,
            inode: false,
            device: false,
            identify: false,
            unprintable_question_mark: false,
            unprintable_as_is: false,
            reverse_alpha_sort: false,
            last_modified_sort: false,
            dirs_first: false,
            output_file: None,
            no_colors: false,
            colors: false,
            max_depth: None,
        }
    }

    /// These options with setting `s` applied.
    pub fn apply(self, s: Setting) -> (r: Flags)
        ensures
            r == applied(self, s),
    {
        match s {
            Setting::On(sw) => self.switch_on(sw),
            Setting::PatternMatch(v) => Flags { pattern_match: v, ..self },
            Setting::PatternExclude(v) => Flags { pattern_exclude: v, ..self },
            Setting::OutputFile(v) => Flags { output_file: v, ..self },
            Setting::Limit(n) => Flags { limit: n, ..self },
            Setting::MaxDepth(n) => Flags { max_depth: n, ..self },
            Setting::DirPath(p) => Flags { dir_path: Some(p), ..self },
            Setting::Unknown(_) => self,
        }
    }

    /// These options with the option of `sw` turned on.
    pub fn switch_on(self, sw: Switch) -> (r: Flags)
        ensures
            r == switched_on(self, sw),
    {
        match sw {
            Switch::Help => Flags { help: true, ..self },
            Switch::Version => Flags { version: true, ..self },
            Switch::NoReport => Flags { no_report: true, ..self },
            Switch::Inode => Flags { inode: true, ..self },
            Switch::Device => Flags { device: true, ..self },
            Switch::DirsFirst => Flags { dirs_first: true, ..self },
            Switch::Prune => Flags { prune: true, ..self },
            Switch::LastModified => Flags { last_modified: true, ..self },
            Switch::All => Flags { all: true, ..self },
            Switch::Dirs => Flags { dirs: true, ..self },
            Switch::FullPath => Flags { full_path: true, ..self },
            Switch::Identify => Flags { identify: true, ..self },
            Switch::NoIndent => Flags { no_indent: true, ..self },
            Switch::FollowSymlinks => Flags { follow_symlinks: true, ..self },
            Switch::Protections => Flags { protections: true, ..self },
            Switch::Size => Flags { size: true, ..self },
            Switch::HumanReadableSize => Flags { human_readable_size: true, ..self },
            Switch::Username => Flags { username: true, ..self },
            Switch::Group => Flags { group: true, ..self },
            Switch::UnprintableQuestionMark => Flags { unprintable_question_mark: true, ..self },
            Switch::UnprintableAsIs => Flags { unprintable_as_is: true, ..self },
            Switch::ReverseAlphaSort => Flags { reverse_alpha_sort: true, ..self },
            Switch::LastModifiedSort => Flags { last_modified_sort: true, ..self },
            Switch::NoColors => Flags { no_colors: true, ..self },
            Switch::Colors => Flags { colors: true, ..self },
        }
    }

    /// The options that need an entry's metadata, in a fixed order.
    pub open spec fn metadata_flags(&self) -> Seq<bool> {
        seq![
            self.protections,
            self.size,
            self.human_readable_size,
            self.last_modified,
            self.last_modified_sort,
            self.inode,
            self.group,
            self.device,
            self.username,
            self.colors,
        ]
    }

    pub fn get_metatdata_flags(&self) -> (r: [bool; 10])
        ensures
            r@ == self.metadata_flags(),
    {
        let r = [
            self.protections,
            self.size,
            self.human_readable_size,
            self.last_modified,
            self.last_modified_sort,
            self.inode,
            self.group,
            self.device,
            self.username,
            self.colors,
        ];
        assert(r@ =~= self.metadata_flags());
        r
    }
}

/// Why a command line could not be parsed.
#[derive(Clone, Copy, Debug, PartialEq, Eq, Structural)]
pub enum CliError {
    /// A depth or a file limit that is not a number.
    InvalidNumber,
    /// A flag that is recognized but not supported.
    Unsupported,
}

/// The characters that `char::is_whitespace` accepts.
pub open spec fn is_ws(c: char) -> bool {
    ||| ('\u{9}' <= c && c <= '\u{d}')
    ||| c == ' '
    ||| c == '\u{85}'
    ||| c == '\u{a0}'
    ||| c == '\u{1680}'
    ||| ('\u{2000}' <= c && c <= '\u{200a}')
    ||| c == '\u{2028}'
    ||| c == '\u{2029}'
    ||| c == '\u{202f}'
    ||| c == '\u{205f}'
    ||| c == '\u{3000}'
}

fn whitespace(c: char) -> (r: bool)
    ensures
        r == is_ws(c),
{
    ('\u{9}' <= c && c <= '\u{d}') || c == ' ' || c == '\u{85}' || c == '\u{a0}' || c
        == '\u{1680}' || ('\u{2000}' <= c && c <= '\u{200a}') || c == '\u{2028}' || c
        == '\u{2029}' || c == '\u{202f}' || c == '\u{205f}' || c == '\u{3000}'
}

/// The first position at or after `i` that is not whitespace (or the end).
pub open spec fn lead_end(s: Seq<char>, i: int) -> int
    decreases s.len() - i,
{
    if i >= s.len() || i < 0 {
        s.len() as int
    } else if is_ws(s[i]) {
        lead_end(s, i + 1)
    } else {
        i
    }
}

/// The end of `s[lo..j]` with trailing whitespace taken off.
pub open spec fn trail_end(s: Seq<char>, j: int, lo: int) -> int
    decreases j - lo,
{
    if j <= lo {
        lo
    } else if is_ws(s[j - 1]) {
        trail_end(s, j - 1, lo)
    } else {
        j
    }
}

/// `s` without leading and trailing whitespace.
pub open spec fn trim(s: Seq<char>) -> Seq<char> {
    let a = lead_end(s, 0);
    s.subrange(a, trail_end(s, s.len() as int, a))
}

/// `s` without leading and trailing whitespace.
fn trim_str(s: &str) -> (r: String)
    ensures
        r@ == trim(s@),
{
    let n = s.unicode_len();
    let mut a: usize = 0;
    while a < n && whitespace(s.get_char(a))
        invariant
            n == s@.len(),
            a <= n,
            lead_end(s@, 0) == lead_end(s@, a as int),
        decreases n - a,
    {
        a = a + 1;
    }
    let mut b: usize = n;
    while b > a && whitespace(s.get_char(b - 1))
        invariant
            n == s@.len(),
            a <= b <= n,
            a == lead_end(s@, 0),
            trail_end(s@, n as int, a as int) == trail_end(s@, b as int, a as int),
        decreases b,
    {
        b = b - 1;
    }
    let mut out = String::new();
    push_str(&mut out, s.substring_char(a, b));
    out
}

/// The number that `str::parse::<usize>` reads from `t`: decimal digits,
/// with an optional leading `+`, within range.
pub open spec fn usize_value(t: Seq<char>) -> Option<usize> {
    digits_usize(plus_stripped(t))
}

/// `t` without one leading `+`.
pub open spec fn plus_stripped(t: Seq<char>) -> Seq<char> {
    if t.len() > 0 && t[0] == '+' {
        t.skip(1)
    } else {
        t
    }
}

/// The value of a non-empty text of decimal digits that fits in `usize`.
pub open spec fn digits_usize(d: Seq<char>) -> Option<usize> {
    if d.len() > 0 && (forall|i: int| 0 <= i < d.len() ==> '0' <= #[trigger] d[i] && d[i] <= '9')
        && digits_value(d) <= usize::MAX {
        Some(digits_value(d) as usize)
    } else {
        None
    }
}

fn parse_usize(t: &str) -> (r: Option<usize>)
    ensures
        r == usize_value(t@),
{
    let n = t.unicode_len();
    let start: usize = if n > 0 && t.get_char(0) == '+' {
        1
    } else {
        0
    };
    let ghost d = plus_stripped(t@);
    assert(d =~= t@.skip(start as int));
    if start >= n {
        return None;
    }
    let mut v: u128 = 0;
    let mut i: usize = start;
    assert(d.take(0) =~= Seq::<char>::empty());
    while i < n
        invariant
            n == t@.len(),
            start <= i <= n,
            d == t@.skip(start as int),
            d == plus_stripped(t@),
            forall|k: int| 0 <= k < i - start ==> '0' <= #[trigger] d[k] && d[k] <= '9',
            v as nat == digits_value(d.take(i - start)),
            v <= usize::MAX,
        decreases n - i,
    {
        let c = t.get_char(i);
        assert(c == d[i - start]);
        if !('0' <= c && c <= '9') {
            assert(!('0' <= d[i - start] && d[i - start] <= '9'));
            assert(digits_usize(d) is None);
            return None;
        }
        assert(d.take(i + 1 - start).drop_last() =~= d.take(i - start));
        v = v * 10 + (c as u32 - '0' as u32) as u128;
        if v > usize::MAX as u128 {
            proof {
                lemma_digits_value_grows(d, i + 1 - start);
            }
            assert(digits_usize(d) is None);
            return None;
        }
        i = i + 1;
    }
    assert(d.take(n - start) =~= d);
    Some(v as usize)
}

/// The argument after position `i`, if any.
pub open spec fn next_arg(args: Seq<Seq<char>>, i: int) -> Option<Seq<char>> {
    if 0 <= i + 1 < args.len() {
        Some(args[i + 1])
    } else {
        None
    }
}

/// A flag that turns one option on.
#[derive(Clone, Copy, Debug, PartialEq, Eq, Structural)]
pub enum Switch {
    /// `--help`
    Help,
    /// `--version`
    Version,
    /// `--noreport`
    NoReport,
    /// `--inodes`
    Inode,
    /// `--device`
    Device,
    /// `--dirsfirst`
    DirsFirst,
    /// `--prune`
    Prune,
    /// `-D`
    LastModified,
    /// `-a`
    All,
    /// `-d`
    Dirs,
    /// `-f`
    FullPath,
    /// `-F`
    Identify,
    /// `-i`
    NoIndent,
    /// `-l`
    FollowSymlinks,
    /// `-p`
    Protections,
    /// `-s`
    Size,
    /// `-h`
    HumanReadableSize,
    /// `-u`
    Username,
    /// `-g`
    Group,
    /// `-q`
    UnprintableQuestionMark,
    /// `-N`
    UnprintableAsIs,
    /// `-r`
    ReverseAlphaSort,
    /// `-t`
    LastModifiedSort,
    /// `-n`
    NoColors,
    /// `-C`
    Colors,
}

/// What one command-line argument sets. A flag that takes a value and comes
/// last sets its option to none.
pub enum Setting {
    On(Switch),
    /// `-P`: the pattern of names to keep.
    PatternMatch(Option<String>),
    /// `-I`: the pattern of names to drop.
    PatternExclude(Option<String>),
    /// `-o`: the output file.
    OutputFile(Option<String>),
    /// `--filelimit`
    Limit(Option<usize>),
    /// `-L`
    MaxDepth(Option<usize>),
    /// An argument that is no flag: the directory to show.
    DirPath(String),
    /// A flag that is not recognized.
    Unknown(String),
}

/// What a `Setting` holds, as plain values.
pub enum SettingView {
    On(Switch),
    PatternMatch(Option<Seq<char>>),
    PatternExclude(Option<Seq<char>>),
    OutputFile(Option<Seq<char>>),
    Limit(Option<usize>),
    MaxDepth(Option<usize>),
    DirPath(Seq<char>),
    Unknown(Seq<char>),
}

impl View for Setting {
    type V = SettingView;

    open spec fn view(&self) -> SettingView {
        match self {
            Setting::On(s) => SettingView::On(*s),
            Setting::PatternMatch(v) => SettingView::PatternMatch(opt_view(*v)),
            Setting::PatternExclude(v) => SettingView::PatternExclude(opt_view(*v)),
            Setting::OutputFile(v) => SettingView::OutputFile(opt_view(*v)),
            Setting::Limit(n) => SettingView::Limit(*n),
            Setting::MaxDepth(n) => SettingView::MaxDepth(*n),
            Setting::DirPath(p) => SettingView::DirPath(p@),
            Setting::Unknown(f) => SettingView::Unknown(f@),
        }
    }
}

pub open spec fn opt_view(o: Option<String>) -> Option<Seq<char>> {
    match o {
        Some(s) => Some(s@),
        None => None,
    }
}

pub open spec fn settings_view(v: Seq<Setting>) -> Seq<SettingView> {
    v.map_values(|s: Setting| s@)
}

/// The option that a flag turns on, if it is such a flag.
pub open spec fn switch_of(a: Seq<char>) -> Option<Switch> {
    if a == "--help"@ {
        Some(Switch::Help)
    } else if a == "--version"@ {
        Some(Switch::Version)
    } else if a == "--noreport"@ {
        Some(Switch::NoReport)
    } else if a == "--inodes"@ {
        Some(Switch::Inode)
    } else if a == "--device"@ {
        Some(Switch::Device)
    } else if a == "--dirsfirst"@ {
        Some(Switch::DirsFirst)
    } else if a == "--prune"@ {
        Some(Switch::Prune)
    } else if a == "-D"@ {
        Some(Switch::LastModified)
    } else if a == "-a"@ {
        Some(Switch::All)
    } else if a == "-d"@ {
        Some(Switch::Dirs)
    } else if a == "-f"@ {
        Some(Switch::FullPath)
    } else if a == "-F"@ {
        Some(Switch::Identify)
    } else if a == "-i"@ {
        Some(Switch::NoIndent)
    } else if a == "-l"@ {
        Some(Switch::FollowSymlinks)
    } else if a == "-p"@ {
        Some(Switch::Protections)
    } else if a == "-s"@ {
        Some(Switch::Size)
    } else if a == "-h"@ {
        Some(Switch::HumanReadableSize)
    } else if a == "-u"@ {
        Some(Switch::Username)
    } else if a == "-g"@ {
        Some(Switch::Group)
    } else if a == "-q"@ {
        Some(Switch::UnprintableQuestionMark)
    } else if a == "-N"@ {
        Some(Switch::UnprintableAsIs)
    } else if a == "-r"@ {
        Some(Switch::ReverseAlphaSort)
    } else if a == "-t"@ {
        Some(Switch::LastModifiedSort)
    } else if a == "-n"@ {
        Some(Switch::NoColors)
    } else if a == "-C"@ {
        Some(Switch::Colors)
    } else {
        None
    }
}

fn switch_index(a: &str) -> (r: Option<Switch>)
    ensures
        r == switch_of(a@),
{
    if str_eq(a, "--help") {
        Some(Switch::Help)
    } else if str_eq(a, "--version") {
        Some(Switch::Version)
    } else if str_eq(a, "--noreport") {
        Some(Switch::NoReport)
    } else if str_eq(a, "--inodes") {
        Some(Switch::Inode)
    } else if str_eq(a, "--device") {
        Some(Switch::Device)
    } else if str_eq(a, "--dirsfirst") {
        Some(Switch::DirsFirst)
    } else if str_eq(a, "--prune") {
        Some(Switch::Prune)
    } else if str_eq(a, "-D") {
        Some(Switch::LastModified)
    } else if str_eq(a, "-a") {
        Some(Switch::All)
    } else if str_eq(a, "-d") {
        Some(Switch::Dirs)
    } else if str_eq(a, "-f") {
        Some(Switch::FullPath)
    } else if str_eq(a, "-F") {
        Some(Switch::Identify)
    } else if str_eq(a, "-i") {
        Some(Switch::NoIndent)
    } else if str_eq(a, "-l") {
        Some(Switch::FollowSymlinks)
    } else if str_eq(a, "-p") {
        Some(Switch::Protections)
    } else if str_eq(a, "-s") {
        Some(Switch::Size)
    } else if str_eq(a, "-h") {
        Some(Switch::HumanReadableSize)
    } else if str_eq(a, "-u") {
        Some(Switch::Username)
    } else if str_eq(a, "-g") {
        Some(Switch::Group)
    } else if str_eq(a, "-q") {
        Some(Switch::UnprintableQuestionMark)
    } else if str_eq(a, "-N") {
        Some(Switch::UnprintableAsIs)
    } else if str_eq(a, "-r") {
        Some(Switch::ReverseAlphaSort)
    } else if str_eq(a, "-t") {
        Some(Switch::LastModifiedSort)
    } else if str_eq(a, "-n") {
        Some(Switch::NoColors)
    } else if str_eq(a, "-C") {
        Some(Switch::Colors)
    } else {
        None
    }
}

/// What argument `a` (followed by `next`, if any) sets: fail, or a setting,
/// with whether `next` was taken as its value.
pub open spec fn cli_step(a: Seq<char>, next: Option<Seq<char>>) -> Result<(bool, SettingView), CliError> {
    if switch_of(a) is Some {
        Ok((false, SettingView::On(switch_of(a)->Some_0)))
    } else if a == "-P"@ {
        match next {
            Some(x) => Ok((true, SettingView::PatternMatch(Some(trim(x))))),
            None => Ok((false, SettingView::PatternMatch(None))),
        }
    } else if a == "-I"@ {
        match next {
            Some(x) => Ok((true, SettingView::PatternExclude(Some(trim(x))))),
            None => Ok((false, SettingView::PatternExclude(None))),
        }
    } else if a == "-o"@ {
        match next {
            Some(x) => Ok((true, SettingView::OutputFile(Some(trim(x))))),
            None => Ok((false, SettingView::OutputFile(None))),
        }
    } else if a == "--filelimit"@ {
        match next {
            Some(x) => match usize_value(trim(x)) {
                Some(n) => Ok((true, SettingView::Limit(Some(n)))),
                None => Err(CliError::InvalidNumber),
            },
            None => Ok((false, SettingView::Limit(None))),
        }
    } else if a == "-L"@ {
        match next {
            Some(x) => match usize_value(trim(x)) {
                Some(n) => Ok((true, SettingView::MaxDepth(Some(n)))),
                None => Err(CliError::InvalidNumber),
            },
            None => Ok((false, SettingView::MaxDepth(None))),
        }
    } else if a == "-x"@ || a == "-A"@ || a == "-S"@ {
        Err(CliError::Unsupported)
    } else if a.len() > 0 && a[0] == '-' {
        Ok((false, SettingView::Unknown(a)))
    } else {
        Ok((false, SettingView::DirPath(a)))
    }
}

/// The settings of `args` from position `i` on, after `acc`.
pub open spec fn cli_run(args: Seq<Seq<char>>, i: int, acc: Seq<SettingView>) -> Result<Seq<SettingView>, CliError>
    decreases args.len() - i,
{
    if i < 0 || i >= args.len() {
        Ok(acc)
    } else {
        match cli_step(args[i], next_arg(args, i)) {
            Err(e) => Err(e),
            Ok((two, s)) => cli_run(args, if two { i + 2 } else { i + 1 }, acc.push(s)),
        }
    }
}

/// The settings of a command line: bundles split first, then each argument
/// in turn, a flag that takes a value taking the next argument.
pub open spec fn cli_settings(args: Seq<Seq<char>>) -> Result<Seq<SettingView>, CliError> {
    cli_run(processed(args), 0, Seq::empty())
}

fn read_arg(args: &Vec<String>, i: usize) -> (r: Result<(bool, Setting), CliError>)
    requires
        i < args@.len(),
    ensures
        match cli_step(args@[i as int]@, next_arg(views(args@), i as int)) {
            Err(e) => r == Err::<(bool, Setting), CliError>(e),
            Ok((two, s)) => r matches Ok((t, x)) && t == two && x@ == s,
        },
{
    let a = args[i].as_str();
    let n = args.len();
    let has_next = i < n - 1;
    assert(has_next ==> views(args@)[i + 1] == args@[i + 1]@);
    if let Some(sw) = switch_index(a) {
        Ok((false, Setting::On(sw)))
    } else if str_eq(a, "-P") {
        if has_next {
            Ok((true, Setting::PatternMatch(Some(trim_str(args[i + 1].as_str())))))
        } else {
            Ok((false, Setting::PatternMatch(None)))
        }
    } else if str_eq(a, "-I") {
        if has_next {
            Ok((true, Setting::PatternExclude(Some(trim_str(args[i + 1].as_str())))))
        } else {
            Ok((false, Setting::PatternExclude(None)))
        }
    } else if str_eq(a, "-o") {
        if has_next {
            Ok((true, Setting::OutputFile(Some(trim_str(args[i + 1].as_str())))))
        } else {
            Ok((false, Setting::OutputFile(None)))
        }
    } else if str_eq(a, "--filelimit") {
        if has_next {
            let x = trim_str(args[i + 1].as_str());
            match parse_usize(x.as_str()) {
                Some(n) => Ok((true, Setting::Limit(Some(n)))),
                None => Err(CliError::InvalidNumber),
            }
        } else {
            Ok((false, Setting::Limit(None)))
        }
    } else if str_eq(a, "-L") {
        if has_next {
            let x = trim_str(args[i + 1].as_str());
            match parse_usize(x.as_str()) {
                Some(n) => Ok((true, Setting::MaxDepth(Some(n)))),
                None => Err(CliError::InvalidNumber),
            }
        } else {
            Ok((false, Setting::MaxDepth(None)))
        }
    } else if str_eq(a, "-x") || str_eq(a, "-A") || str_eq(a, "-S") {
        Err(CliError::Unsupported)
    } else if a.unicode_len() > 0 && a.get_char(0) == '-' {
        Ok((false, Setting::Unknown(args[i].clone())))
    } else {
        Ok((false, Setting::DirPath(args[i].clone())))
    }
}

/// `f` with the option of `sw` turned on.
pub open spec fn switched_on(f: Flags, sw: Switch) -> Flags {
    match sw {
        Switch::Help => Flags { help: true, ..f },
        Switch::Version => Flags { version: true, ..f },
        Switch::NoReport => Flags { no_report: true, ..f },
        Switch::Inode => Flags { inode: true, ..f },
        Switch::Device => Flags { device: true, ..f },
        Switch::DirsFirst => Flags { dirs_first: true, ..f },
        Switch::Prune => Flags { prune: true, ..f },
        Switch::LastModified => Flags { last_modified: true, ..f },
        Switch::All => Flags { all: true, ..f },
        Switch::Dirs => Flags { dirs: true, ..f },
        Switch::FullPath => Flags { full_path: true, ..f },
        Switch::Identify => Flags { identify: true, ..f },
        Switch::NoIndent => Flags { no_indent: true, ..f },
        Switch::FollowSymlinks => Flags { follow_symlinks: true, ..f },
        Switch::Protections => Flags { protections: true, ..f },
        Switch::Size => Flags { size: true, ..f },
        Switch::HumanReadableSize => Flags { human_readable_size: true, ..f },
        Switch::Username => Flags { username: true, ..f },
        Switch::Group => Flags { group: true, ..f },
        Switch::UnprintableQuestionMark => Flags { unprintable_question_mark: true, ..f },
        Switch::UnprintableAsIs => Flags { unprintable_as_is: true, ..f },
        Switch::ReverseAlphaSort => Flags { reverse_alpha_sort: true, ..f },
        Switch::LastModifiedSort => Flags { last_modified_sort: true, ..f },
        Switch::NoColors => Flags { no_colors: true, ..f },
        Switch::Colors => Flags { colors: true, ..f },
    }
}

/// The options that `new` gives.
pub open spec fn default_flags() -> Flags {
    Flags {
        dir_path: None,
        help: false,
        version: false,
        all: false,
        dirs: false,
        full_path: false,
        no_indent: false,
        follow_symlinks: false,
        pattern_match: None,
        pattern_exclude: None,
        prune: false,
        limit: None,
        time_fmt: None,
        no_report: false,
        protections: false,
        size: false,
        human_readable_size: false,
        username: false,
        group: false,
        last_modified: false,
        inode: false,
        device: false,
        identify: false,
        unprintable_question_mark: false,
        unprintable_as_is: false,
        reverse_alpha_sort: false,
        last_modified_sort: false,
        dirs_first: false,
        output_file: None,
        no_colors: false,
        colors: false,
        max_depth: None,
    }
}

/// `f` with setting `s` applied: a later setting overrides an earlier one,
/// and an unrecognized flag changes nothing.
pub open spec fn applied(f: Flags, s: Setting) -> Flags {
    match s {
        Setting::On(sw) => switched_on(f, sw),
        Setting::PatternMatch(v) => Flags { pattern_match: v, ..f },
        Setting::PatternExclude(v) => Flags { pattern_exclude: v, ..f },
        Setting::OutputFile(v) => Flags { output_file: v, ..f },
        Setting::Limit(n) => Flags { limit: n, ..f },
        Setting::MaxDepth(n) => Flags { max_depth: n, ..f },
        Setting::DirPath(p) => Flags { dir_path: Some(p), ..f },
        Setting::Unknown(_) => f,
    }
}

/// `f` with the settings `ss` applied in order.
pub open spec fn fold_settings(f: Flags, ss: Seq<Setting>) -> Flags
    decreases ss.len(),
{
    if ss.len() == 0 {
        f
    } else {
        applied(fold_settings(f, ss.drop_last()), ss.last())
    }
}

/// The unrecognized flags among `ss`, in order.
pub open spec fn unknowns(ss: Seq<Setting>) -> Seq<Seq<char>>
    decreases ss.len(),
{
    if ss.len() == 0 {
        Seq::empty()
    } else {
        match ss.last() {
            Setting::Unknown(f) => unknowns(ss.drop_last()).push(f@),
            _ => unknowns(ss.drop_last()),
        }
    }
}

/// A parsed command line.
pub struct Cmd {
    pub flags: Flags,
}

/// An argument that bundles several one-letter flags (`-ahs`).
pub open spec fn is_bundle(s: Seq<char>) -> bool {
    s.len() > 2 && s[0] == '-' && s[1] != '-'
}

pub open spec fn bundle_pred() -> spec_fn(Seq<char>) -> bool {
    |s: Seq<char>| is_bundle(s)
}

pub open spec fn plain_pred() -> spec_fn(Seq<char>) -> bool {
    |s: Seq<char>| !is_bundle(s)
}

/// `-ahs` split into `-a`, `-h`, `-s`.
pub open spec fn split_bundle(s: Seq<char>) -> Seq<Seq<char>> {
    Seq::new((s.len() - 1) as nat, |i: int| seq!['-', s[i + 1]])
}

pub open spec fn split_fn() -> spec_fn(Seq<char>) -> Seq<Seq<char>> {
    |s: Seq<char>| split_bundle(s)
}

pub open spec fn views(v: Seq<String>) -> Seq<Seq<char>> {
    v.map_values(|s: String| s@)
}

/// The arguments with every bundle split into single flags: the split
/// bundles first, in order, then the other arguments, in order.
pub open spec fn processed(args: Seq<Seq<char>>) -> Seq<Seq<char>> {
    let b = args.filter(bundle_pred());
    let rest = args.filter(plain_pred());
    if b.len() == 0 {
        rest
    } else {
        b.flat_map(split_fn()) + rest
    }
}

fn starts_bundle(s: &String) -> (r: bool)
    ensures
        r == is_bundle(s@),
{
    let t = s.as_str();
    let n = t.unicode_len();
    n > 2 && t.get_char(0) == '-' && t.get_char(1) != '-'
}

impl Cmd {
    /// The settings of a command line, in order: bundled flags are split
    /// first, then each argument read in turn. A depth or file limit that is
    /// not a number, and the flags `-x`, `-A` and `-S`, are refused.
    pub fn parse_settings(args: Vec<String>) -> (r: Result<Vec<Setting>, CliError>)
        ensures
            match cli_settings(views(args@)) {
                Err(e) => r == Err::<Vec<Setting>, CliError>(e),
                Ok(s) => r matches Ok(v) && settings_view(v@) == s,
            },
    {
        let commands = Self::process_args(args);
        let mut out: Vec<Setting> = Vec::new();
        let mut i: usize = 0;
        assert(settings_view(out@) =~= Seq::<SettingView>::empty());
        while i < commands.len()
            invariant
                views(commands@) == processed(views(args@)),
                i <= commands@.len(),
                cli_settings(views(args@)) == cli_run(views(commands@), i as int, settings_view(out@)),
            decreases commands@.len() - i,
        {
            assert(views(commands@)[i as int] == commands@[i as int]@);
            match read_arg(&commands, i) {
                Err(e) => {
                    return Err(e);
                },
                Ok((two, s)) => {
                    let ghost before = settings_view(out@);
                    out.push(s);
                    assert(settings_view(out@) =~= before.push(out@.last()@));
                    if two {
                        i = i + 2;
                    } else {
                        i = i + 1;
                    }
                },
            }
        }
        Ok(out)
    }

    /// The command that a list of settings makes, applied in order to no
    /// option set, and the flags it did not recognize.
    pub fn from_settings(settings: Vec<Setting>) -> (r: (Cmd, Vec<String>))
        ensures
            r.0.flags == fold_settings(default_flags(), settings@),
            views(r.1@) == unknowns(settings@),
    {
        let ghost all = settings@;
        let n = settings.len();
        let mut settings = settings;
        let mut rev: Vec<Setting> = Vec::new();
        while settings.len() > 0
            invariant
                all.len() == settings@.len() + rev@.len(),
                settings@ == all.take(settings@.len() as int),
                forall|j: int| 0 <= j < rev@.len() ==> #[trigger] rev@[j] == all[all.len() - 1 - j],
            decreases settings@.len(),
        {
            let x = settings.pop().unwrap();
            assert(settings@ =~= all.take(settings@.len() as int));
            rev.push(x);
        }
        let mut flags = Flags::new();
        let mut unknown: Vec<String> = Vec::new();
        let mut k: usize = 0;
        assert(all.take(0) =~= Seq::<Setting>::empty());
        assert(views(unknown@) =~= Seq::<Seq<char>>::empty());
        while rev.len() > 0
            invariant
                k + rev@.len() == all.len(),
                all.len() == n,
                forall|j: int| 0 <= j < rev@.len() ==> #[trigger] rev@[j] == all[all.len() - 1 - j],
                flags == fold_settings(default_flags(), all.take(k as int)),
                views(unknown@) == unknowns(all.take(k as int)),
            decreases rev@.len(),
        {
            let s = rev.pop().unwrap();
            assert(s == all[k as int]);
            assert(all.take(k + 1).drop_last() =~= all.take(k as int));
            let ghost uv = views(unknown@);
            match &s {
                Setting::Unknown(f) => {
                    unknown.push(f.clone());
                    assert(views(unknown@) =~= uv.push(f@));
                },
                _ => {},
            }
            flags = flags.apply(s);
            k = k + 1;
        }
        assert(all.take(k as int) =~= all);
        (Cmd { flags }, unknown)
    }

    /// Parses a command line into options and the flags it does not
    /// recognize. The directory stays unset when no argument names one.
    pub fn from_cli(args: Vec<String>) -> (r: Result<(Cmd, Vec<String>), CliError>)
        ensures
            r is Ok <==> cli_settings(views(args@)) is Ok,
            r matches Err(e) ==> cli_settings(views(args@)) == Err::<Seq<SettingView>, CliError>(e),
            r matches Ok((c, u)) ==> exists|v: Seq<Setting>|
                settings_view(v) == cli_settings(views(args@))->Ok_0 && c.flags == fold_settings(
                    default_flags(),
                    v,
                ) && views(u@) == unknowns(v),
    {
        match Self::parse_settings(args) {
            Err(e) => Err(e),
            Ok(settings) => {
                let ghost v = settings@;
                let (c, u) = Self::from_settings(settings);
                assert(settings_view(v) == cli_settings(views(args@))->Ok_0);
                Ok((c, u))
            },
        }
    }

    /// Splits bundled one-letter flags (`-ahs` into `-a -h -s`); the split
    /// flags come first.
    pub fn process_args(args: Vec<String>) -> (r: Vec<String>)
        ensures
            views(r@) == processed(views(args@)),
            (forall|i: int| 0 <= i < args@.len() ==> !is_bundle(#[trigger] args@[i]@)) ==> views(
                r@,
            ) == views(args@),
    {
        let ghost a = views(args@);
        let mut split: Vec<String> = Vec::new();
        let mut ready: Vec<String> = Vec::new();
        let mut i: usize = 0;
        assert(a.take(0) =~= Seq::<Seq<char>>::empty());
        assert(Seq::<Seq<char>>::empty().filter(bundle_pred()) =~= Seq::<Seq<char>>::empty());
        assert(Seq::<Seq<char>>::empty().filter(plain_pred()) =~= Seq::<Seq<char>>::empty());
        assert(views(split@) =~= Seq::<Seq<char>>::empty());
        while i < args.len()
            invariant
                a == views(args@),
                i <= args@.len(),
                views(split@) == a.take(i as int).filter(bundle_pred()).flat_map(split_fn()),
                views(ready@) == a.take(i as int).filter(plain_pred()),
                split@.len() == 0 <==> a.take(i as int).filter(bundle_pred()).len() == 0,
            decreases args@.len() - i,
        {
            let s = &args[i];
            let ghost pre = a.take(i as int);
            assert(a.take(i + 1) =~= pre.push(s@));
            proof {
                pre.lemma_filter_push(s@, bundle_pred());
                pre.lemma_filter_push(s@, plain_pred());
            }
            if starts_bundle(s) {
                let t = s.as_str();
                let n = t.unicode_len();
                let ghost before = views(split@);
                let mut j: usize = 1;
                while j < n
                    invariant
                        n == s@.len(),
                        t@ == s@,
                        n > 2,
                        1 <= j <= n,
                        views(split@) == before + split_bundle(s@).take(j - 1),
                        split@.len() > 0 || j == 1,
                    decreases n - j,
                {
                    let mut one = String::new();
                    push_char(&mut one, '-');
                    push_char(&mut one, t.get_char(j));
                    assert(one@ =~= seq!['-', s@[j as int]]);
                    let ghost sv = views(split@);
                    split.push(one);
                    assert(views(split@) =~= sv.push(one@));
                    assert(split_bundle(s@).take(j as int) =~= split_bundle(s@).take(j - 1).push(
                        seq!['-', s@[j as int]],
                    ));
                    assert(views(split@) =~= before + split_bundle(s@).take(j as int));
                    assert(split_bundle(s@).take(j as int) =~= split_bundle(s@).take(j - 1).push(
                        seq!['-', s@[j as int]],
                    ));
                    j = j + 1;
                }
                assert(split_bundle(s@).take(n - 1) =~= split_bundle(s@));
                proof {
                    pre.filter(bundle_pred()).lemma_flat_map_push(split_fn(), s@);
                }
            } else {
                let c = s.clone();
                let ghost rv = views(ready@);
                ready.push(c);
                assert(views(ready@) =~= rv.push(s@));
            }
            i = i + 1;
        }
        assert(a.take(args@.len() as int) =~= a);
        proof {
            if forall|i: int| 0 <= i < args@.len() ==> !is_bundle(#[trigger] args@[i]@) {
                assert(a.filter(plain_pred()) =~= a) by {
                    a.filter_lemma(plain_pred());
                    assert forall|k: int| 0 <= k < a.len() implies plain_pred()(a[k]) by {
                        assert(a[k] == args@[k]@);
                    }
                    crate::flags::lemma_filter_all(a, plain_pred());
                }
                assert forall|k: int| 0 <= k < a.len() implies !bundle_pred()(a[k]) by {
                    assert(a[k] == args@[k]@);
                }
                lemma_filter_none(a, bundle_pred());
            }
        }
        if split.len() == 0 {
            return ready;
        }
        let mut out = split;
        let ghost sv = views(out@);
        let mut k: usize = 0;
        let ghost rv = views(ready@);
        while k < ready.len()
            invariant
                rv == views(ready@),
                k <= ready@.len(),
                views(out@) == sv + rv.take(k as int),
            decreases ready@.len() - k,
        {
            let c = ready[k].clone();
            let ghost ov = views(out@);
            out.push(c);
            assert(views(out@) =~= ov.push(ready@[k as int]@));
            assert(rv.take(k + 1) =~= rv.take(k as int).push(rv[k as int]));
            k = k + 1;
        }
        assert(rv.take(ready@.len() as int) =~= rv);
        out
    }

    /// The options of this command.
    pub fn global(&self) -> (r: &Flags)
        ensures
            r == &self.flags,
    {
        &self.flags
    }

    /// Whether any option needs the entries' metadata.
    pub fn requires_metadata(flags: &Flags) -> (r: bool)
        ensures
            r == exists|i: int| 0 <= i < 10 && #[trigger] flags.metadata_flags()[i],
    {
        let fs = flags.get_metatdata_flags();
        let mut i: usize = 0;
        while i < 10
            invariant
                fs@ == flags.metadata_flags(),
                i <= 10,
                forall|k: int| 0 <= k < i ==> !#[trigger] fs@[k],
            decreases 10 - i,
        {
            if fs[i] {
                return true;
            }
            i = i + 1;
        }
        false
    }
}

/// Filtering by a predicate that holds nowhere leaves nothing.
pub proof fn lemma_filter_none(s: Seq<Seq<char>>, p: spec_fn(Seq<char>) -> bool)
    requires
        forall|k: int| 0 <= k < s.len() ==> !p(#[trigger] s[k]),
    ensures
        s.filter(p).len() == 0,
    decreases s.len(),
{
    reveal(Seq::filter);
    if s.len() > 0 {
        lemma_filter_none(s.drop_last(), p);
        assert(s.drop_last().push(s.last()) =~= s);
        s.drop_last().lemma_filter_push(s.last(), p);
    }
}

/// Filtering by a predicate that holds everywhere changes nothing.
pub proof fn lemma_filter_all(s: Seq<Seq<char>>, p: spec_fn(Seq<char>) -> bool)
    requires
        forall|k: int| 0 <= k < s.len() ==> p(#[trigger] s[k]),
    ensures
        s.filter(p) == s,
    decreases s.len(),
{
    reveal(Seq::filter);
    if s.len() > 0 {
        lemma_filter_all(s.drop_last(), p);
        assert(s.drop_last().push(s.last()) =~= s);
        s.drop_last().lemma_filter_push(s.last(), p);
    } else {
        assert(s.filter(p) =~= s);
    }
}

} // verus!
