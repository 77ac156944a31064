use vstd::prelude::*;

use crate::text::{ascii_alnum, chars_of, is_alnum};

verus! {

/// One token of a compiled wildcard pattern.
#[derive(Debug, PartialEq, Eq)]
pub enum PatternType {
    /// `*`: one or more characters.
    OneOrMore,
    /// `?`: exactly one character.
    One,
    /// `[...]`: one character of the set.
    OneOf(Vec<char>),
    /// `![...]`: one character outside the set.
    NotOneOf(Vec<char>),
    /// Any other character, matched as itself.
    Literal(char),
}

/// What a token stands for, with its character set as a sequence.
pub enum Token {
    OneOrMore,
    One,
    OneOf(Seq<char>),
    NotOneOf(Seq<char>),
    Literal(char),
}

impl View for PatternType {
    type V = Token;

    open spec fn view(&self) -> Token {
        match self {
            PatternType::OneOrMore => Token::OneOrMore,
            PatternType::One => Token::One,
            PatternType::OneOf(v) => Token::OneOf(v@),
            PatternType::NotOneOf(v) => Token::NotOneOf(v@),
            PatternType::Literal(c) => Token::Literal(*c),
        }
    }
}

/// Why a wildcard pattern could not be compiled.
#[derive(Debug, PartialEq, Eq, Clone, Copy)]
pub enum PatternError {
    /// A `]` with no bracket group open.
    UnopenedGroup,
    /// A bracket group closed with no character in its set.
    EmptyGroup,
    /// A range whose second endpoint is missing at the end of the input.
    MissingRangeEnd,
    /// The input ended inside a bracket group.
    UnterminatedGroup,
}

/// A compiled wildcard pattern, and whether its matches are kept (`inclusive`)
/// or dropped.
pub struct Pattern {
    pattern: Vec<PatternType>,
    pub inclusive: bool,
}

/// The characters from `lo` to `hi` by code point, both included.
pub open spec fn range_chars(lo: char, hi: char) -> Seq<char> {
    Seq::new(
        if lo <= hi { (hi as u32 - lo as u32 + 1) as nat } else { 0 },
        |k: int| ((lo as u32 + k) as u8) as char,
    )
}

pub open spec fn group_view(g: Option<Vec<char>>) -> Option<Seq<char>> {
    match g {
        Some(v) => Some(v@),
        None => None,
    }
}

pub open spec fn tokens_view(ts: Seq<PatternType>) -> Seq<Token> {
    ts.map_values(|t: PatternType| t@)
}

proof fn lemma_tokens_view_push(ts: Seq<PatternType>, t: PatternType)
    ensures
        tokens_view(ts.push(t)) == tokens_view(ts).push(t@),
{
    assert(tokens_view(ts.push(t)) =~= tokens_view(ts).push(t@));
}

/// The state of a left-to-right scan of a pattern text: the tokens emitted so
/// far, the bracket group being read (if any) and whether the next group to
/// close is negated.
pub struct ScanState {
    pub toks: Seq<Token>,
    pub group: Option<Seq<char>>,
    pub neg: bool,
}

/// What the scan does at one character `c` (followed by `next`, if any): fail,
/// or move on to a new state, having used `next` too when the flag is set.
pub open spec fn scan_step(c: char, next: Option<char>, st: ScanState) -> Result<(bool, ScanState), PatternError> {
    let toks = st.toks;
    let group = st.group;
    let neg = st.neg;
    if c == '*' {
        Ok((false, ScanState { toks: toks.push(Token::OneOrMore), ..st }))
    } else if c == '?' {
        Ok((false, ScanState { toks: toks.push(Token::One), ..st }))
    } else if c == '[' && group is None {
        Ok((false, ScanState { group: Some(Seq::empty()), ..st }))
    } else if c == ']' {
        match group {
            None => Err(PatternError::UnopenedGroup),
            Some(g) => if g.len() == 0 {
                Err(PatternError::EmptyGroup)
            } else {
                let t = if neg { Token::NotOneOf(g) } else { Token::OneOf(g) };
                Ok((false, ScanState { toks: toks.push(t), group: None, neg: false }))
            },
        }
    } else if c == '-' && group is Some {
        let g = group->Some_0;
        if g.len() > 0 && is_alnum(g.last()) {
            match next {
                None => Err(PatternError::MissingRangeEnd),
                Some(hi) => if is_alnum(hi) {
                    Ok((true, ScanState { group: Some(g.drop_last() + range_chars(g.last(), hi)), ..st }))
                } else {
                    Ok((false, ScanState { group: Some(g.push('-')), ..st }))
                },
            }
        } else {
            Ok((false, ScanState { group: Some(g.push('-')), ..st }))
        }
    } else if c == '!' && next == Some('[') {
        Ok((false, ScanState { neg: true, ..st }))
    } else if c == '|' && group is Some {
        Ok((false, st))
    } else {
        match group {
            Some(g) => Ok((false, ScanState { group: Some(g.push(c)), ..st })),
            None => Ok((false, ScanState { toks: toks.push(Token::Literal(c)), ..st })),
        }
    }
}

/// The character after position `i`, if any.
pub open spec fn next_char(s: Seq<char>, i: int) -> Option<char> {
    if 0 <= i + 1 < s.len() {
        Some(s[i + 1])
    } else {
        None
    }
}

/// The rest of the scan of `s` from position `i` in state `st`.
pub open spec fn scan_from(s: Seq<char>, i: int, st: ScanState) -> Result<Seq<Token>, PatternError>
    decreases s.len() - i,
{
    if i < 0 || i >= s.len() {
        if st.group is Some {
            Err(PatternError::UnterminatedGroup)
        } else {
            Ok(st.toks)
        }
    } else {
        match scan_step(s[i], next_char(s, i), st) {
            Err(e) => Err(e),
            Ok((two, next)) => scan_from(s, if two { i + 2 } else { i + 1 }, next),
        }
    }
}

/// The tokens that the pattern text `s` compiles to, or why it does not compile.
pub open spec fn compile(s: Seq<char>) -> Result<Seq<Token>, PatternError> {
    scan_from(s, 0, ScanState { toks: Seq::empty(), group: None, neg: false })
}

/// Whether the single character `c` satisfies token `t`.
pub open spec fn single(c: char, t: Token) -> bool {
    match t {
        Token::OneOf(set) => set.contains(c),
        Token::NotOneOf(set) => !set.contains(c),
        Token::Literal(p) => p == c,
        _ => true,
    }
}

/// The first position at or after `j` whose character satisfies `t`.
pub open spec fn first_hit(s: Seq<char>, j: int, t: Token) -> Option<int>
    decreases s.len() - j,
{
    if j < 0 || j >= s.len() {
        None
    } else if single(s[j], t) {
        Some(j)
    } else {
        first_hit(s, j + 1, t)
    }
}

/// Whether the candidate `s` matches the tokens `toks`: tokens and characters
/// go in lock-step, except that a `OneOrMore` followed by another token takes
/// one character and then every character up to the first one that satisfies
/// the next token, which that character then consumes. Characters left over
/// once the tokens are used up do not matter.
pub open spec fn pattern_matches(toks: Seq<Token>, s: Seq<char>) -> bool
    decreases toks.len(),
{
    if toks.len() == 0 {
        true
    } else if s.len() == 0 {
        false
    } else if toks[0] is OneOrMore && toks.len() > 1 {
        match first_hit(s, 1, toks[1]) {
            None => false,
            Some(j) => pattern_matches(toks.skip(2), s.skip(j + 1)),
        }
    } else {
        single(s[0], toks[0]) && pattern_matches(toks.skip(1), s.skip(1))
    }
}

fn push_token(toks: &mut Vec<PatternType>, t: PatternType)
    ensures
        final(toks)@ == old(toks)@.push(t),
        tokens_view(final(toks)@) == tokens_view(old(toks)@).push(t@),
{
    toks.push(t);
    proof {
        lemma_tokens_view_push(old(toks)@, t);
    }
}

/// Appends to `g` the characters from `lo` to `hi`.
fn push_range(g: &mut Vec<char>, lo: char, hi: char)
    requires
        is_alnum(lo),
        is_alnum(hi),
    ensures
        final(g)@ == old(g)@ + range_chars(lo, hi),
{
    let ghost base = g@;
    let lo_code: u32 = lo as u32;
    let hi_code: u32 = hi as u32;
    let mut k: u32 = lo_code;
    while k <= hi_code
        invariant
            lo_code == lo as u32,
            hi_code == hi as u32,
            hi_code <= 'z' as u32,
            k == lo_code || lo_code <= k <= hi_code + 1,
            g@ == base + range_chars(lo, hi).take(k - lo_code),
        decreases hi_code + 1 - k,
    {
        let ch = (k as u8) as char;
        g.push(ch);
        assert(range_chars(lo, hi).take(k + 1 - lo_code) =~= range_chars(lo, hi).take(
            k - lo_code,
        ).push(ch));
        k = k + 1;
    }
    assert(range_chars(lo, hi).take(k - lo_code) =~= range_chars(lo, hi));
}

pub open spec fn scan_state(toks: Seq<PatternType>, group: Option<Vec<char>>, neg: bool) -> ScanState {
    ScanState { toks: tokens_view(toks), group: group_view(group), neg }
}

fn set_contains(set: &Vec<char>, c: char) -> (r: bool)
    ensures
        r == set@.contains(c),
{
    let mut i: usize = 0;
    while i < set.len()
        invariant
            i <= set.len(),
            forall|k: int| 0 <= k < i ==> set@[k] != c,
        decreases set.len() - i,
    {
        if set[i] == c {
            return true;
        }
        i = i + 1;
    }
    false
}

impl Pattern {
    /// The tokens of this pattern, in order.
    pub closed spec fn tokens(&self) -> Seq<Token> {
        tokens_view(self.pattern@)
    }

    /// Whether a match keeps a name (`true`) or drops it (`false`).
    pub closed spec fn keeps_matches(&self) -> bool {
        self.inclusive
    }

    /// Whether a match keeps a name (`true`) or drops it (`false`).
    pub fn is_inclusive(&self) -> (r: bool)
        ensures
            r == self.keeps_matches(),
    {
        self.inclusive
    }

    /// The compiled tokens, in order.
    pub fn pattern_types(&self) -> (r: &Vec<PatternType>)
        ensures
            tokens_view(r@) == self.tokens(),
    {
        &self.pattern
    }

    /// Compiles the wildcard text `pattern`; `is_inclusive` tells whether
    /// its matches are kept or dropped.
    #[verifier::spinoff_prover]
    #[verifier::rlimit(50)]
    pub fn parse(pattern: &str, is_inclusive: bool) -> (r: Result<Pattern, PatternError>)
        ensures
            r is Ok <==> compile(pattern@) is Ok,
            r matches Ok(p) ==> p.tokens() == compile(pattern@)->Ok_0 && p.keeps_matches()
                == is_inclusive,
            r matches Err(e) ==> compile(pattern@) == Err::<Seq<Token>, PatternError>(e),
    {
        let s = chars_of(pattern);
        let n = s.len();
        let mut toks: Vec<PatternType> = Vec::new();
        let mut group: Option<Vec<char>> = None;
        let mut neg = false;
        let mut i: usize = 0;
        assert(tokens_view(toks@) =~= Seq::<Token>::empty());
        while i < n
            invariant
                n == s@.len(),
                s@ == pattern@,
                i <= n,
                compile(pattern@) == scan_from(s@, i as int, scan_state(toks@, group, neg)),
            decreases n - i,
        {
            let c = s[i];
            let ghost st = scan_state(toks@, group, neg);
            let ghost step = scan_step(c, next_char(s@, i as int), st);
            assert(scan_from(s@, i as int, st) == match step {
                Err(e) => Err(e),
                Ok((two, next)) => scan_from(s@, if two { i + 2 } else { i + 1 }, next),
            });
            let has_next = i + 1 < n;
            if c == '*' {
                push_token(&mut toks, PatternType::OneOrMore);
                i = i + 1;
            } else if c == '?' {
                push_token(&mut toks, PatternType::One);
                i = i + 1;
            } else if c == '[' && group.is_none() {
                group = Some(Vec::new());
                assert(group_view(group) =~= Some(Seq::<char>::empty()));
                i = i + 1;
            } else if c == ']' {
                match group {
                    None => {
                        return Err(PatternError::UnopenedGroup);
                    },
                    Some(g) => {
                        if g.len() == 0 {
                            return Err(PatternError::EmptyGroup);
                        }
                        let t = if neg {
                            PatternType::NotOneOf(g)
                        } else {
                            PatternType::OneOf(g)
                        };
                        push_token(&mut toks, t);
                        group = None;
                        neg = false;
                        i = i + 1;
                    },
                }
            } else if c == '-' && group.is_some() {
                let mut g = group.unwrap();
                let ghost gv = g@;
                let glen = g.len();
                if glen > 0 && ascii_alnum(g[glen - 1]) {
                    if !has_next {
                        return Err(PatternError::MissingRangeEnd);
                    }
                    let hi = s[i + 1];
                    if ascii_alnum(hi) {
                        let lo = g.pop().unwrap();
                        push_range(&mut g, lo, hi);
                        assert(g@ == gv.drop_last() + range_chars(gv.last(), hi));
                        group = Some(g);
                        i = i + 2;
                    } else {
                        g.push('-');
                        group = Some(g);
                        i = i + 1;
                    }
                } else {
                    g.push('-');
                    group = Some(g);
                    i = i + 1;
                }
            } else if c == '!' && has_next && s[i + 1] == '[' {
                neg = true;
                i = i + 1;
            } else if c == '|' && group.is_some() {
                i = i + 1;
            } else {
                if group.is_some() {
                    let mut g = group.unwrap();
                    g.push(c);
                    group = Some(g);
                } else {
                    push_token(&mut toks, PatternType::Literal(c));
                }
                i = i + 1;
            }
            assert(step matches Ok((_, next)) && next == scan_state(toks@, group, neg));
        }
        if group.is_some() {
            return Err(PatternError::UnterminatedGroup);
        }
        Ok(Pattern { pattern: toks, inclusive: is_inclusive })
    }

    /// Whether the single character `ch` satisfies token `pattern`.
    pub fn match_single(ch: &char, pattern: &PatternType) -> (r: bool)
        ensures
            r == single(*ch, pattern@),
    {
        match pattern {
            PatternType::OneOf(set) => set_contains(set, *ch),
            PatternType::NotOneOf(set) => !set_contains(set, *ch),
            PatternType::Literal(c) => *c == *ch,
            _ => true,
        }
    }

    /// Whether `value` matches this pattern.
    pub fn is_match(&self, value: &str) -> (r: bool)
        ensures
            r == pattern_matches(self.tokens(), value@),
    {
        let s = chars_of(value);
        let n = s.len();
        let nt = self.pattern.len();
        let ghost toks = self.tokens();
        let mut ti: usize = 0;
        let mut pos: usize = 0;
        assert(toks.skip(0) =~= toks);
        assert(s@.skip(0) =~= s@);
        while ti < nt
            invariant
                n == s@.len(),
                s@ == value@,
                nt == self.pattern@.len(),
                toks == self.tokens(),
                toks.len() == nt,
                ti <= nt,
                pos <= n,
                pattern_matches(toks, s@) == pattern_matches(toks.skip(ti as int), s@.skip(pos as int)),
            decreases nt - ti,
        {
            let ghost rt = toks.skip(ti as int);
            let ghost rs = s@.skip(pos as int);
            if pos >= n {
                return false;
            }
            let t = &self.pattern[ti];
            assert(rt[0] == t@);
            let is_star = match t {
                PatternType::OneOrMore => true,
                _ => false,
            };
            if is_star && ti + 1 < nt {
                let next = &self.pattern[ti + 1];
                assert(rt[1] == next@);
                let mut j: usize = pos + 1;
                while j < n && !Self::match_single(&s[j], next)
                    invariant
                        n == s@.len(),
                        pos < j <= n,
                        rs == s@.skip(pos as int),
                        first_hit(rs, 1, next@) == first_hit(rs, j - pos, next@),
                    decreases n - j,
                {
                    j = j + 1;
                }
                if j >= n {
                    return false;
                }
                assert(first_hit(rs, j - pos, next@) == Some((j - pos) as int));
                assert(rs.skip(j - pos + 1) =~= s@.skip(j + 1));
                assert(rt.skip(2) =~= toks.skip(ti + 2));
                pos = j + 1;
                ti = ti + 2;
            } else {
                if !Self::match_single(&s[pos], t) {
                    return false;
                }
                assert(rs.skip(1) =~= s@.skip(pos + 1));
                assert(rt.skip(1) =~= toks.skip(ti + 1));
                pos = pos + 1;
                ti = ti + 1;
            }
        }
        assert(toks.skip(ti as int).len() == 0);
        true
    }
}

/// `*` compiles to a single `OneOrMore`, which every non-empty candidate matches.
pub proof fn lemma_star_matches_nonempty(s: Seq<char>)
    requires
        s.len() > 0,
    ensures
        compile(seq!['*']) == Ok::<Seq<Token>, PatternError>(seq![Token::OneOrMore]),
        pattern_matches(seq![Token::OneOrMore], s),
{
    let p = seq!['*'];
    assert(Seq::<Token>::empty().push(Token::OneOrMore) =~= seq![Token::OneOrMore]);
    let st1 = ScanState { toks: seq![Token::OneOrMore], group: None, neg: false };
    assert(scan_from(p, 1, st1) == Ok::<Seq<Token>, PatternError>(seq![Token::OneOrMore]));
    let t = seq![Token::OneOrMore];
    assert(t.skip(1).len() == 0);
    assert(pattern_matches(t.skip(1), s.skip(1)));
}

} // verus!
