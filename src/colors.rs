use vstd::prelude::*;

use crate::dirent::{decimal, push_decimal};
use crate::text::{chars_of, push_char, push_str, string_of};

verus! {

pub const ANSI_COLOR_RESET: &'static str = "\x1B[0m";

/// The two forms in which the environment may describe colors.
pub enum ColorFormats {
    /// `LSCOLORS`: one letter pair per entity class, in a fixed order.
    LsColors(String),
    /// `LS_COLORS`: `key=codes` entries separated by `:`.
    LsColorsDelimited(String),
    Undefined,
}

/// The escape sequence and reset sequence of each entity class, by slot.
pub struct ColorMap {
    pub slots: Vec<Option<(String, &'static str)>>,
}

/// The color configuration of a run: none, or a map.
pub struct Colors {
    pub map: Option<ColorMap>,
}

/// The entity classes, by slot.
pub open spec fn entity_name(i: int) -> Seq<char> {
    if i == 0 {
        "directory"@
    } else if i == 1 {
        "sym_link"@
    } else if i == 2 {
        "socket"@
    } else if i == 3 {
        "pipe"@
    } else if i == 4 {
        "executable"@
    } else if i == 5 {
        "special_block"@
    } else if i == 6 {
        "special_char"@
    } else if i == 7 {
        "exe_set_uid"@
    } else if i == 8 {
        "exe_set_gid"@
    } else if i == 9 {
        "dwo_sticky"@
    } else {
        "dwo_non_sticky"@
    }
}

/// The `LS_COLORS` key of each slot.
pub open spec fn entity_key(i: int) -> Seq<char> {
    if i == 0 {
        seq!['d', 'i']
    } else if i == 1 {
        seq!['l', 'n']
    } else if i == 2 {
        seq!['s', 'o']
    } else if i == 3 {
        seq!['p', 'i']
    } else if i == 4 {
        seq!['e', 'x']
    } else if i == 5 {
        seq!['b', 'd']
    } else if i == 6 {
        seq!['c', 'd']
    } else if i == 7 {
        seq!['s', 'u']
    } else if i == 8 {
        seq!['s', 'g']
    } else if i == 9 {
        seq!['t', 'w']
    } else {
        seq!['o', 'w']
    }
}

pub const N_ENTITIES: usize = 11;

fn entity_name_str(i: usize) -> (r: &'static str)
    requires
        i < N_ENTITIES,
    ensures
        r@ == entity_name(i as int),
{
    if i == 0 {
        "directory"
    } else if i == 1 {
        "sym_link"
    } else if i == 2 {
        "socket"
    } else if i == 3 {
        "pipe"
    } else if i == 4 {
        "executable"
    } else if i == 5 {
        "special_block"
    } else if i == 6 {
        "special_char"
    } else if i == 7 {
        "exe_set_uid"
    } else if i == 8 {
        "exe_set_gid"
    } else if i == 9 {
        "dwo_sticky"
    } else {
        "dwo_non_sticky"
    }
}

/// The escape sequence built from a foreground and a background code text:
/// the parts `fg`, `;`, `bg`, `m` in turn, an empty part left out, the `;`
/// left out under `skip_semi`, a part `;` also left out under `skip_semi`,
/// a part `m` left out while nothing was taken yet. Nothing taken gives no
/// sequence and no reset.
pub open spec fn esc_spec(fg: Seq<char>, bg: Seq<char>, skip_semi: bool) -> (Seq<char>, Seq<char>) {
    let a1 = if fg.len() == 0 || (fg == seq![';'] && skip_semi) || fg == seq!['m'] {
        Seq::<char>::empty()
    } else {
        fg
    };
    let a2 = if skip_semi {
        a1
    } else {
        a1.push(';')
    };
    let a3 = if bg.len() == 0 || (bg == seq![';'] && skip_semi) || (bg == seq!['m'] && a2.len()
        == 0) {
        a2
    } else {
        a2 + bg
    };
    let a4 = if a3.len() == 0 {
        a3
    } else {
        a3.push('m')
    };
    if a4.len() == 0 {
        (Seq::empty(), ""@)
    } else {
        ("\x1B["@ + a4, ANSI_COLOR_RESET@)
    }
}

fn is_one(s: &str, c: char) -> (r: bool)
    ensures
        r == (s@ == seq![c]),
{
    let r = s.unicode_len() == 1 && s.get_char(0) == c;
    proof {
        if s@.len() == 1 && s@[0] == c {
            assert(s@ =~= seq![c]);
        }
    }
    r
}

pub(crate) fn esc_seq(fg: &str, bg: &str, skip_semi: bool) -> (r: (String, &'static str))
    ensures
        r.0@ == esc_spec(fg@, bg@, skip_semi).0,
        r.1@ == esc_spec(fg@, bg@, skip_semi).1,
{
    let mut acc = String::new();
    if !(fg.unicode_len() == 0 || (is_one(fg, ';') && skip_semi) || is_one(fg, 'm')) {
        push_str(&mut acc, fg);
    }
    if !skip_semi {
        push_char(&mut acc, ';');
    }
    let a2_empty = acc.as_str().unicode_len() == 0;
    if !(bg.unicode_len() == 0 || (is_one(bg, ';') && skip_semi) || (is_one(bg, 'm') && a2_empty)) {
        push_str(&mut acc, bg);
    }
    if acc.as_str().unicode_len() > 0 {
        push_char(&mut acc, 'm');
    }
    if acc.as_str().unicode_len() == 0 {
        (acc, "")
    } else {
        let mut out = String::new();
        push_str(&mut out, "\x1B[");
        push_str(&mut out, acc.as_str());
        (out, ANSI_COLOR_RESET)
    }
}

/// The ANSI code of an `LSCOLORS` letter as a foreground color; `x` and
/// unknown letters have none.
pub open spec fn letter_code(c: char) -> Option<nat> {
    if 'a' <= c && c <= 'h' {
        Some((30 + (c as u32 - 'a' as u32)) as nat)
    } else if 'A' <= c && c <= 'H' {
        Some((90 + (c as u32 - 'A' as u32)) as nat)
    } else {
        None
    }
}

pub open spec fn letter_known(c: char) -> bool {
    letter_code(c) is Some || c == 'x'
}

/// The foreground code text of a letter (`x`: none).
pub open spec fn fg_text(c: char) -> Seq<char> {
    match letter_code(c) {
        Some(n) => decimal(n),
        None => Seq::empty(),
    }
}

/// The background code text of a letter (`x`: none).
pub open spec fn bg_text(c: char) -> Seq<char> {
    match letter_code(c) {
        Some(n) => decimal(n + 10),
        None => Seq::empty(),
    }
}

/// The escape sequences of the `k`-th letter pair of `s`.
pub open spec fn pair_esc(s: Seq<char>, k: int) -> (Seq<char>, Seq<char>) {
    esc_spec(fg_text(s[2 * k]), bg_text(s[2 * k + 1]), fg_text(s[2 * k]).len() == 0)
}

fn letter_number(c: char) -> (r: Option<u64>)
    ensures
        r is Some <==> letter_code(c) is Some,
        r matches Some(n) ==> letter_code(c) == Some(n as nat),
{
    if 'a' <= c && c <= 'h' {
        Some(30 + (c as u32 - 'a' as u32) as u64)
    } else if 'A' <= c && c <= 'H' {
        Some(90 + (c as u32 - 'A' as u32) as u64)
    } else {
        None
    }
}

/// Splits `s` at each `sep`: one more piece than separators.
pub open spec fn split_spec(s: Seq<char>, sep: char) -> Seq<Seq<char>>
    decreases s.len(),
{
    if s.len() == 0 {
        seq![Seq::empty()]
    } else {
        let prev = split_spec(s.drop_last(), sep);
        if s.last() == sep {
            prev.push(Seq::empty())
        } else {
            prev.update(prev.len() - 1, prev.last().push(s.last()))
        }
    }
}

proof fn lemma_split_nonempty(s: Seq<char>, sep: char)
    ensures
        split_spec(s, sep).len() >= 1,
    decreases s.len(),
{
    if s.len() > 0 {
        lemma_split_nonempty(s.drop_last(), sep);
    }
}

pub open spec fn nested_view(v: Seq<Vec<char>>) -> Seq<Seq<char>> {
    v.map_values(|x: Vec<char>| x@)
}

fn split_chars(s: &Vec<char>, sep: char) -> (r: Vec<Vec<char>>)
    ensures
        nested_view(r@) == split_spec(s@, sep),
{
    let mut out: Vec<Vec<char>> = Vec::new();
    out.push(Vec::new());
    assert(s@.take(0) =~= Seq::<char>::empty());
    assert(nested_view(out@) =~= split_spec(s@.take(0), sep));
    let mut i: usize = 0;
    while i < s.len()
        invariant
            i <= s@.len(),
            nested_view(out@) == split_spec(s@.take(i as int), sep),
            out@.len() >= 1,
        decreases s@.len() - i,
    {
        let c = s[i];
        assert(s@.take(i + 1).drop_last() =~= s@.take(i as int));
        proof {
            lemma_split_nonempty(s@.take(i as int), sep);
        }
        let ghost before = nested_view(out@);
        if c == sep {
            out.push(Vec::new());
            assert(nested_view(out@) =~= before.push(Seq::empty()));
        } else {
            let mut last = out.pop().unwrap();
            last.push(c);
            out.push(last);
            assert(nested_view(out@) =~= before.update(before.len() - 1, before.last().push(c)));
        }
        i = i + 1;
    }
    assert(s@.take(s@.len() as int) =~= s@);
    out
}

/// The value of a text of decimal digits, if it is one and fits in a byte.
pub open spec fn byte_value(s: Seq<char>) -> Option<nat> {
    if s.len() > 0 && (forall|i: int| 0 <= i < s.len() ==> '0' <= #[trigger] s[i] && s[i] <= '9')
        && digits_value(s) <= 255 {
        Some(digits_value(s))
    } else {
        None
    }
}

pub open spec fn digits_value(s: Seq<char>) -> nat
    decreases s.len(),
{
    if s.len() == 0 {
        0
    } else {
        digits_value(s.drop_last()) * 10 + (s.last() as u32 - '0' as u32) as nat
    }
}

/// A code that sets a standard foreground or background color.
pub open spec fn is_color_code(s: Seq<char>) -> bool {
    byte_value(s) matches Some(n) && ((30 <= n && n <= 47) || (90 <= n && n <= 107))
}

pub open spec fn color_code_pred() -> spec_fn(Seq<char>) -> bool {
    |s: Seq<char>| is_color_code(s)
}

fn color_code(s: &Vec<char>) -> (r: bool)
    ensures
        r == is_color_code(s@),
{
    if s.len() == 0 {
        return false;
    }
    let mut v: u64 = 0;
    let mut i: usize = 0;
    while i < s.len()
        invariant
            i <= s@.len(),
            s@.len() > 0,
            forall|k: int| 0 <= k < i ==> '0' <= #[trigger] s@[k] && s@[k] <= '9',
            v as nat == digits_value(s@.take(i as int)),
            v <= 255,
        decreases s@.len() - i,
    {
        let c = s[i];
        if !('0' <= c && c <= '9') {
            return false;
        }
        assert(s@.take(i + 1).drop_last() =~= s@.take(i as int));
        v = v * 10 + (c as u32 - '0' as u32) as u64;
        if v > 255 {
            proof {
                lemma_digits_value_grows(s@, i as int + 1);
            }
            return false;
        }
        i = i + 1;
    }
    assert(s@.take(s@.len() as int) =~= s@);
    (30 <= v && v <= 47) || (90 <= v && v <= 107)
}

/// A value taken on more digits never shrinks.
pub proof fn lemma_digits_value_grows(s: Seq<char>, k: int)
    requires
        0 <= k <= s.len(),
    ensures
        digits_value(s.take(k)) <= digits_value(s),
    decreases s.len() - k,
{
    if k < s.len() {
        lemma_digits_value_grows(s, k + 1);
        assert(s.take(k + 1).drop_last() =~= s.take(k));
    } else {
        assert(s.take(k) =~= s);
    }
}

/// The slot, foreground code and background code that one `LS_COLORS`
/// entry sets, if it sets one: a known key before `=`, and at least one
/// color code among the `;`-separated codes after it.
pub open spec fn entry_setting(e: Seq<char>) -> Option<(int, Seq<char>, Seq<char>)> {
    let parts = split_spec(e, '=');
    if parts.len() < 2 {
        None
    } else if !(exists|i: int| 0 <= i < 11 && entity_key(i) == parts[0]) {
        None
    } else {
        let i = choose|i: int| 0 <= i < 11 && entity_key(i) == parts[0];
        let codes = split_spec(parts[1], ';').filter(color_code_pred());
        if codes.len() == 0 {
            None
        } else {
            Some((i, codes[0], if codes.len() == 1 { Seq::empty() } else { codes[1] }))
        }
    }
}

/// The escape sequences that the last of `entries` setting slot `i` gives it.
pub open spec fn last_setting(entries: Seq<Seq<char>>, i: int) -> Option<(Seq<char>, Seq<char>)>
    decreases entries.len(),
{
    if entries.len() == 0 {
        None
    } else {
        match entry_setting(entries.last()) {
            Some((j, fg, bg)) if j == i => Some(esc_spec(fg, bg, fg.len() == 0)),
            _ => last_setting(entries.drop_last(), i),
        }
    }
}

pub open spec fn slot_view(s: Option<(String, &'static str)>) -> Option<(Seq<char>, Seq<char>)> {
    match s {
        Some((a, b)) => Some((a@, b@)),
        None => None,
    }
}

fn key_slot(k: &Vec<char>) -> (r: Option<usize>)
    ensures
        r is Some <==> exists|i: int| 0 <= i < 11 && entity_key(i) == k@,
        r matches Some(i) ==> i < 11 && entity_key(i as int) == k@,
{
    if k.len() != 2 {
        assert forall|i: int| 0 <= i < 11 implies entity_key(i) != k@ by {
            assert(entity_key(i).len() == 2);
        }
        return None;
    }
    let a = k[0];
    let b = k[1];
    let r: Option<usize> = if a == 'd' && b == 'i' {
        Some(0)
    } else if a == 'l' && b == 'n' {
        Some(1)
    } else if a == 's' && b == 'o' {
        Some(2)
    } else if a == 'p' && b == 'i' {
        Some(3)
    } else if a == 'e' && b == 'x' {
        Some(4)
    } else if a == 'b' && b == 'd' {
        Some(5)
    } else if a == 'c' && b == 'd' {
        Some(6)
    } else if a == 's' && b == 'u' {
        Some(7)
    } else if a == 's' && b == 'g' {
        Some(8)
    } else if a == 't' && b == 'w' {
        Some(9)
    } else if a == 'o' && b == 'w' {
        Some(10)
    } else {
        None
    };
    proof {
        if let Some(i) = r {
            assert(entity_key(i as int) =~= k@);
        } else {
            assert forall|i: int| 0 <= i < 11 implies entity_key(i) != k@ by {
                if entity_key(i) == k@ {
                    assert(entity_key(i)[0] == k@[0] && entity_key(i)[1] == k@[1]);
                }
            }
        }
    }
    r
}

/// The color codes among the `;`-separated codes of `cfg`, in order.
fn color_codes(cfg: &Vec<char>) -> (r: Vec<Vec<char>>)
    ensures
        nested_view(r@) == split_spec(cfg@, ';').filter(color_code_pred()),
{
    let parts = split_chars(cfg, ';');
    let ghost all = nested_view(parts@);
    let mut out: Vec<Vec<char>> = Vec::new();
    let mut i: usize = 0;
    assert(all.take(0) =~= Seq::<Seq<char>>::empty());
    assert(Seq::<Seq<char>>::empty().filter(color_code_pred()) =~= Seq::<Seq<char>>::empty());
    assert(nested_view(out@) =~= Seq::<Seq<char>>::empty());
    while i < parts.len()
        invariant
            all == nested_view(parts@),
            i <= parts@.len(),
            nested_view(out@) == all.take(i as int).filter(color_code_pred()),
        decreases parts@.len() - i,
    {
        let p = &parts[i];
        assert(all[i as int] == p@);
        assert(all.take(i + 1) =~= all.take(i as int).push(p@));
        proof {
            all.take(i as int).lemma_filter_push(p@, color_code_pred());
        }
        if color_code(p) {
            let ghost before = nested_view(out@);
            out.push(p.clone());
            assert(nested_view(out@) =~= before.push(p@));
        }
        i = i + 1;
    }
    assert(all.take(parts@.len() as int) =~= all);
    out
}

/// The setting of one `LS_COLORS` entry, as slot and escape sequences.
fn entry_slot(e: &Vec<char>) -> (r: Option<(usize, (String, &'static str))>)
    ensures
        r is Some <==> entry_setting(e@) is Some,
        r matches Some((i, (a, b))) ==> {
            let (j, fg, bg) = entry_setting(e@)->Some_0;
            &&& i == j
            &&& i < 11
            &&& a@ == esc_spec(fg, bg, fg.len() == 0).0
            &&& b@ == esc_spec(fg, bg, fg.len() == 0).1
        },
{
    let parts = split_chars(e, '=');
    assert(nested_view(parts@).len() == parts@.len());
    if parts.len() < 2 {
        return None;
    }
    assert(nested_view(parts@)[0] == parts@[0]@);
    assert(nested_view(parts@)[1] == parts@[1]@);
    let i = match key_slot(&parts[0]) {
        Some(i) => i,
        None => {
            return None;
        },
    };
    let codes = color_codes(&parts[1]);
    let ghost cv = nested_view(codes@);
    assert(cv.len() == codes@.len());
    if codes.len() == 0 {
        return None;
    }
    assert(cv[0] == codes@[0]@);
    let fg = string_of(&codes[0]);
    let bg = if codes.len() == 1 {
        String::new()
    } else {
        assert(cv[1] == codes@[1]@);
        string_of(&codes[1])
    };
    let fg_empty = fg.as_str().unicode_len() == 0;
    let v = esc_seq(fg.as_str(), bg.as_str(), fg_empty);
    proof {
        let k = choose|k: int| 0 <= k < 11 && entity_key(k) == parts@[0]@;
        assert(entity_key(k) == entity_key(i as int));
        assert(k == i as int) by {
            assert(entity_key(k)[0] == entity_key(i as int)[0]);
            assert(entity_key(k)[1] == entity_key(i as int)[1]);
        }
    }
    Some((i, v))
}

/// What the color map `r` of the description `fmt` is: none when undefined;
/// for `LSCOLORS`, present exactly when it is well formed, the letter pairs
/// filling the slots in order; for `LS_COLORS`, each slot taken from the last
/// entry that sets it.
pub open spec fn color_map_of(fmt: ColorFormats, r: Option<ColorMap>) -> bool {
    &&& (fmt is Undefined ==> r is None)
    &&& (fmt matches ColorFormats::LsColors(s) ==> {
        &&& (r is Some <==> s@.len() % 2 == 0 && forall|i: int|
            0 <= i < s@.len() ==> letter_known(#[trigger] s@[i]))
        &&& r matches Some(m) ==> m.slots@.len() == 11 && forall|k: int|
            0 <= k < 11 ==> slot_view(#[trigger] m.slots@[k]) == if k < s@.len() / 2 {
                Some(pair_esc(s@, k))
            } else {
                None
            }
    })
    &&& (fmt matches ColorFormats::LsColorsDelimited(s) ==> {
        &&& r is Some
        &&& r->Some_0.slots@.len() == 11
        &&& forall|k: int|
            0 <= k < 11 ==> slot_view(#[trigger] r->Some_0.slots@[k]) == last_setting(
                split_spec(s@, ':'),
                k,
            )
    })
}

impl Colors {
    /// The color configuration: none without colors, else the map that the
    /// environment's format gives (none for an undefined or malformed one).
    pub fn from_ls_colors(with_colors: bool, color_fmt: ColorFormats) -> (r: Colors)
        ensures
            !with_colors ==> r.map is None,
            with_colors ==> color_map_of(color_fmt, r.map),
    {
        if with_colors {
            Colors { map: Self::create_color_map(color_fmt) }
        } else {
            Colors { map: None }
        }
    }

    /// The escape sequence of a (foreground, background) code pair, and the
    /// reset sequence that ends it.
    pub fn map_color_to_esc_seq(fg: &str, bg: &str) -> (r: (String, &'static str))
        ensures
            r.0@ == esc_spec(fg@, bg@, fg@.len() == 0).0,
            r.1@ == esc_spec(fg@, bg@, fg@.len() == 0).1,
    {
        let skip = fg.unicode_len() == 0;
        esc_seq(fg, bg, skip)
    }

    /// The escape sequences of each letter pair of an `LSCOLORS` value;
    /// none when its length is odd or a letter is unknown.
    pub fn map_chars_to_ansi_color_code(color_var: &str) -> (r: Option<Vec<(String, &'static str)>>)
        ensures
            r is Some <==> color_var@.len() % 2 == 0 && forall|i: int|
                0 <= i < color_var@.len() ==> letter_known(#[trigger] color_var@[i]),
            r matches Some(v) ==> v@.len() == color_var@.len() / 2 && forall|k: int|
                0 <= k < v@.len() ==> (#[trigger] v@[k]).0@ == pair_esc(color_var@, k).0 && v@[k].1@
                    == pair_esc(color_var@, k).1,
    {
        let s = chars_of(color_var);
        let n = s.len();
        let mut out: Vec<(String, &'static str)> = Vec::new();
        let mut k: usize = 0;
        while 2 * k + 1 < n
            invariant
                s@ == color_var@,
                n == s@.len(),
                2 * k <= n,
                out@.len() == k,
                forall|i: int| 0 <= i < 2 * k ==> letter_known(#[trigger] s@[i]),
                forall|j: int|
                    0 <= j < k ==> (#[trigger] out@[j]).0@ == pair_esc(s@, j).0 && out@[j].1@
                        == pair_esc(s@, j).1,
            decreases n - 2 * k,
        {
            let a = s[2 * k];
            let b = s[2 * k + 1];
            let fa = letter_number(a);
            let fb = letter_number(b);
            if (fa.is_none() && a != 'x') || (fb.is_none() && b != 'x') {
                return None;
            }
            let mut fg = String::new();
            match fa {
                Some(x) => push_decimal(&mut fg, x),
                None => {},
            }
            let mut bg = String::new();
            match fb {
                Some(x) => push_decimal(&mut bg, x + 10),
                None => {},
            }
            assert(fg@ =~= fg_text(a));
            assert(bg@ =~= bg_text(b));
            let fg_empty = fg.as_str().unicode_len() == 0;
            let v = esc_seq(fg.as_str(), bg.as_str(), fg_empty);
            out.push(v);
            k = k + 1;
        }
        if 2 * k < n {
            return None;
        }
        Some(out)
    }

    /// The color map of a color description: for `LSCOLORS`, the letter
    /// pairs fill the slots in order; for `LS_COLORS`, each slot takes the
    /// last entry that sets it. None when undefined or malformed.
    pub fn create_color_map(color_fmt: ColorFormats) -> (r: Option<ColorMap>)
        ensures
            color_map_of(color_fmt, r),
    {
        match color_fmt {
            ColorFormats::LsColors(s) => {
                let pairs = match Self::map_chars_to_ansi_color_code(s.as_str()) {
                    Some(p) => p,
                    None => {
                        return None;
                    },
                };
                let mut pairs = pairs;
                let ghost pv = pairs@;
                let mut rev: Vec<(String, &'static str)> = Vec::new();
                while pairs.len() > 0
                    invariant
                        pairs@ == pv.take(pairs@.len() as int),
                        rev@.len() == pv.len() - pairs@.len(),
                        forall|j: int|
                            0 <= j < rev@.len() ==> #[trigger] rev@[j] == pv[pv.len() - 1 - j],
                    decreases pairs@.len(),
                {
                    let ghost before = pairs@;
                    let x = pairs.pop().unwrap();
                    assert(pairs@ =~= pv.take(pairs@.len() as int));
                    rev.push(x);
                }
                let mut slots: Vec<Option<(String, &'static str)>> = Vec::new();
                let mut k: usize = 0;
                while k < N_ENTITIES
                    invariant
                        rev@.len() + k == pv.len() || (k >= pv.len() && rev@.len() == 0),
                        k <= 11,
                        slots@.len() == k,
                        forall|j: int|
                            0 <= j < rev@.len() ==> #[trigger] rev@[j] == pv[pv.len() - 1 - j],
                        forall|j: int|
                            0 <= j < k ==> slot_view(#[trigger] slots@[j]) == if j < pv.len() {
                                Some((pv[j].0@, pv[j].1@))
                            } else {
                                None
                            },
                    decreases 11 - k,
                {
                    let next = rev.pop();
                    match next {
                        Some(x) => {
                            assert(x == pv[k as int]);
                            slots.push(Some(x));
                        },
                        None => {
                            slots.push(None);
                        },
                    }
                    k = k + 1;
                }
                Some(ColorMap { slots })
            },
            ColorFormats::LsColorsDelimited(s) => {
                let cs = chars_of(s.as_str());
                let entries = split_chars(&cs, ':');
                let ghost ev = nested_view(entries@);
                let mut slots: Vec<Option<(String, &'static str)>> = Vec::new();
                let mut k: usize = 0;
                while k < N_ENTITIES
                    invariant
                        k <= 11,
                        slots@.len() == k,
                        forall|j: int| 0 <= j < k ==> slot_view(#[trigger] slots@[j]) is None,
                    decreases 11 - k,
                {
                    slots.push(None);
                    k = k + 1;
                }
                let mut i: usize = 0;
                assert(ev.take(0) =~= Seq::<Seq<char>>::empty());
                while i < entries.len()
                    invariant
                        ev == nested_view(entries@),
                        i <= entries@.len(),
                        slots@.len() == 11,
                        forall|j: int|
                            0 <= j < 11 ==> slot_view(#[trigger] slots@[j]) == last_setting(
                                ev.take(i as int),
                                j,
                            ),
                    decreases entries@.len() - i,
                {
                    assert(ev[i as int] == entries@[i as int]@);
                    assert(ev.take(i + 1).drop_last() =~= ev.take(i as int));
                    assert(ev.take(i + 1).last() == ev[i as int]);
                    match entry_slot(&entries[i]) {
                        Some((j, v)) => {
                            slots.set(j, Some(v));
                        },
                        None => {},
                    }
                    i = i + 1;
                }
                assert(ev.take(entries@.len() as int) =~= ev);
                assert(ev == split_spec(s@, ':'));
                Some(ColorMap { slots })
            },
            ColorFormats::Undefined => None,
        }
    }

    /// The escape and reset sequences for the entity class `entity`; empty
    /// ones when there is no map or no color for it.
    pub fn get_color_esc_seq(&self, entity: &str) -> (r: (String, &'static str))
        ensures
            ({
                let found = match self.map {
                    Some(m) => exists|k: int|
                        0 <= k < 11 && k < m.slots@.len() && entity_name(k) == entity@
                            && m.slots@[k] is Some,
                    None => false,
                };
                !found ==> r.0@.len() == 0 && r.1@ == ""@
            }),
            self.map matches Some(m) ==> forall|k: int|
                0 <= k < 11 && k < m.slots@.len() && entity_name(k) == entity@ && #[trigger] m.slots@[k] is Some
                    ==> r.0@ == m.slots@[k]->Some_0.0@ && r.1@ == m.slots@[k]->Some_0.1@,
    {
        match &self.map {
            Some(m) => {
                let mut k: usize = 0;
                while k < N_ENTITIES && k < m.slots.len()
                    invariant
                        k <= 11,
                        self.map == Some(*m),
                        forall|j: int|
                            0 <= j < k && j < m.slots@.len() && entity_name(j) == entity@ ==> #[trigger] m.slots@[j] is None,
                    decreases 11 - k,
                {
                    let name = entity_name_str(k);
                    if crate::order::str_eq(name, entity) {
                        match &m.slots[k] {
                            Some((a, b)) => {
                                proof {
                                    lemma_entity_names_distinct();
                                    assert(entity_name(k as int) == entity@);
                                    assert(m.slots@[k as int] is Some);
                                    assert forall|j: int|
                                        0 <= j < 11 && entity_name(j) == entity@ implies j == k by {}
                                }
                                return (a.clone(), *b);
                            },
                            None => {},
                        }
                    }
                    k = k + 1;
                }
                (String::new(), "")
            },
            None => (String::new(), ""),
        }
    }
}

/// The classes among the first `n` slots that have a color, with their
/// sequences, in slot order.
pub open spec fn named_slots(slots: Seq<Option<(String, &'static str)>>, n: int) -> Seq<
    (Seq<char>, (Seq<char>, Seq<char>)),
>
    decreases n,
{
    if n <= 0 {
        Seq::empty()
    } else {
        let prev = named_slots(slots, n - 1);
        match slots[n - 1] {
            Some((a, b)) => prev.push((entity_name(n - 1), (a@, b@))),
            None => prev,
        }
    }
}

pub open spec fn entries_view(v: Seq<(&'static str, (String, &'static str))>) -> Seq<
    (Seq<char>, (Seq<char>, Seq<char>)),
> {
    v.map_values(|e: (&'static str, (String, &'static str))| (e.0@, (e.1.0@, e.1.1@)))
}

impl ColorMap {
    /// The classes that have a color, with their sequences, in slot order.
    pub fn entries(&self) -> (r: Vec<(&'static str, (String, &'static str))>)
        ensures
            entries_view(r@) == named_slots(
                self.slots@,
                if self.slots@.len() < 11 {
                    self.slots@.len() as int
                } else {
                    11
                },
            ),
    {
        let mut out: Vec<(&'static str, (String, &'static str))> = Vec::new();
        let mut k: usize = 0;
        assert(entries_view(out@) =~= Seq::empty());
        while k < N_ENTITIES && k < self.slots.len()
            invariant
                k <= 11,
                k <= self.slots@.len(),
                entries_view(out@) == named_slots(self.slots@, k as int),
            decreases 11 - k,
        {
            let ghost before = entries_view(out@);
            match &self.slots[k] {
                Some((a, b)) => {
                    out.push((entity_name_str(k), (a.clone(), *b)));
                    assert(entries_view(out@) =~= before.push((entity_name(k as int), (a@, b@))));
                },
                None => {},
            }
            k = k + 1;
        }
        out
    }
}

/// No two classes share a name.
proof fn lemma_entity_names_distinct()
    ensures
        forall|i: int, j: int|
            0 <= i < 11 && 0 <= j < 11 && i != j ==> entity_name(i) != entity_name(j),
{
    reveal_strlit("directory");
    reveal_strlit("sym_link");
    reveal_strlit("socket");
    reveal_strlit("pipe");
    reveal_strlit("executable");
    reveal_strlit("special_block");
    reveal_strlit("special_char");
    reveal_strlit("exe_set_uid");
    reveal_strlit("exe_set_gid");
    reveal_strlit("dwo_sticky");
    reveal_strlit("dwo_non_sticky");
    assert forall|i: int, j: int|
        0 <= i < 11 && 0 <= j < 11 && i != j implies entity_name(i) != entity_name(j) by {
        if entity_name(i) == entity_name(j) {
            assert(entity_name(i).len() == entity_name(j).len());
            assert(entity_name(i)[0] == entity_name(j)[0]);
            assert(entity_name(i)[1] == entity_name(j)[1]);
            assert(entity_name(i)[4] == entity_name(j)[4]);
            assert(entity_name(i)[8] == entity_name(j)[8]);
        }
    }
}

} // verus!
