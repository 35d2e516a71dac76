//! The parser: source text plus resolved interpolation values in, a `Sheet`
//! out. The grammar is the CSS-like authoring syntax: declarations
//! `name: value;` whose values may embed `${index}` markers resolved against
//! the supplied interpolation values, qualified rules
//! `selector-list { body }` nesting arbitrarily (a nested selector list is
//! independent of its parent's), generic at-rules
//! `@keyword condition { body }`, and bare declarations wrapped into implicit
//! scope-bound blocks. The first error aborts the parse; no partial tree
//! escapes. The `sp_parse*` spec functions are the grammar's definition, and
//! the executable parser is proved to return exactly their result.
use crate::ast::{
    lemma_view_contents_push, lemma_view_rules_push, view_at_rule, view_attribute, view_block,
    view_contents, view_fragments, view_rules, view_selector, view_selectors, view_strings,
    AtRuleBlock, Block, BlockContent, RuleBlock, Selector, SelectorFragment, Sheet,
    SpecAtRuleBlock, SpecBlock, SpecBlockContent, SpecRuleBlock, SpecSelector,
    SpecSelectorFragment, SpecSheet, SpecStyleAttribute, StyleAttribute,
};
use vstd::prelude::*;

verus! {

/// What a parse rejects: the error class and the source position (a character
/// index into the input) where it was noticed.
#[derive(Debug, Clone, Copy, PartialEq, Eq, Structural)]
pub enum ParseErrorKind {
    /// Text where no declaration, rule or at-rule can start or continue.
    UnexpectedToken,
    /// The input ended inside a brace-delimited body.
    UnterminatedBlock,
    /// An empty entry in a selector list.
    InvalidSelector,
    /// An `${index}` marker whose index has no interpolation value.
    InterpolationIndexOutOfRange,
}

/// A rejected parse: the error class and the character position it carries.
#[derive(Debug, Clone, Copy, PartialEq, Eq, Structural)]
pub struct ParseError {
    pub kind: ParseErrorKind,
    pub pos: usize,
}

/// What the first structural character after a content position is: an
/// opening brace (a rule starts), a semicolon (a declaration ends), a closing
/// brace before either, or the end of the input. `${...}` markers are skipped.
#[derive(Debug, Clone, Copy, PartialEq, Eq, Structural)]
pub enum ScanKind {
    Brace,
    Semi,
    Close,
    End,
}

pub open spec fn sp_is_space(c: char) -> bool {
    c == ' ' || c == '\t' || c == '\n' || c == '\r'
}

/// The first index at or after `i` holding a non-whitespace character, or the
/// length.
pub open spec fn sp_skip_ws(s: Seq<char>, i: int) -> int
    decreases s.len() - i,
{
    if 0 <= i < s.len() && sp_is_space(s[i]) {
        sp_skip_ws(s, i + 1)
    } else {
        i
    }
}

/// The first index in `[i, end)` holding `c`, or `end`.
pub open spec fn sp_find_char(s: Seq<char>, i: int, end: int, c: char) -> int
    decreases end - i,
{
    if 0 <= i < end <= s.len() {
        if s[i] == c {
            i
        } else {
            sp_find_char(s, i + 1, end, c)
        }
    } else {
        end
    }
}

/// The end of `[a, b)` with trailing whitespace dropped.
pub open spec fn sp_trim_end(s: Seq<char>, a: int, b: int) -> int
    decreases b - a,
{
    if a < b <= s.len() && b >= 1 && sp_is_space(s[b - 1]) {
        sp_trim_end(s, a, b - 1)
    } else {
        b
    }
}

/// `sp_find_char` stays within `[i, end]`, hits `c` exactly when it returns
/// an index below `end`, and skips no earlier occurrence.
pub proof fn lemma_sp_find_char(s: Seq<char>, i: int, end: int, c: char)
    requires
        0 <= i <= end <= s.len(),
    ensures
        i <= sp_find_char(s, i, end, c) <= end,
        sp_find_char(s, i, end, c) < end ==> s[sp_find_char(s, i, end, c)] == c,
        forall|j: int| i <= j < sp_find_char(s, i, end, c) ==> s[j] != c,
    decreases end - i,
{
    if i < end && s[i] != c {
        lemma_sp_find_char(s, i + 1, end, c);
    }
}

/// Whether an interpolation marker `${` starts at `i` within `[0, end)`.
pub open spec fn sp_is_interp_at(s: Seq<char>, i: int, end: int) -> bool {
    0 <= i && i + 1 < end && end <= s.len() && s[i] == '$' && s[i + 1] == '{'
}

/// The first index in `[i, end)` where an interpolation marker starts, or
/// `end`.
pub open spec fn sp_find_interp(s: Seq<char>, i: int, end: int) -> int
    decreases end - i,
{
    if 0 <= i < end <= s.len() {
        if sp_is_interp_at(s, i, end) {
            i
        } else {
            sp_find_interp(s, i + 1, end)
        }
    } else {
        end
    }
}

/// `sp_find_interp` stays within `[i, end]` and finds the first marker.
pub proof fn lemma_sp_find_interp(s: Seq<char>, i: int, end: int)
    requires
        0 <= i <= end <= s.len(),
    ensures
        i <= sp_find_interp(s, i, end) <= end,
        sp_find_interp(s, i, end) < end ==> sp_is_interp_at(s, sp_find_interp(s, i, end), end),
        forall|j: int| i <= j < sp_find_interp(s, i, end) ==> !sp_is_interp_at(s, j, end),
    decreases end - i,
{
    if i < end && !sp_is_interp_at(s, i, end) {
        lemma_sp_find_interp(s, i + 1, end);
    }
}

/// The classification of the text that starts at `i`: the kind and position
/// of the first structural character (`{`, `;` or `}`) outside `${...}`
/// markers, or the end of the input.
pub open spec fn sp_scan(s: Seq<char>, i: int) -> (ScanKind, int)
    decreases s.len() - i,
    via sp_scan_dec
{
    if 0 <= i < s.len() {
        if s[i] == '$' && i + 1 < s.len() && s[i + 1] == '{' {
            let close = sp_find_char(s, i + 2, s.len() as int, '}');
            if close < s.len() {
                sp_scan(s, close + 1)
            } else {
                (ScanKind::End, s.len() as int)
            }
        } else if s[i] == '{' {
            (ScanKind::Brace, i)
        } else if s[i] == ';' {
            (ScanKind::Semi, i)
        } else if s[i] == '}' {
            (ScanKind::Close, i)
        } else {
            sp_scan(s, i + 1)
        }
    } else {
        (ScanKind::End, s.len() as int)
    }
}

#[via_fn]
proof fn sp_scan_dec(s: Seq<char>, i: int) {
    if 0 <= i < s.len() && s[i] == '$' && i + 1 < s.len() && s[i + 1] == '{' {
        lemma_sp_find_char(s, i + 2, s.len() as int, '}');
    }
}

/// `sp_scan` returns a position within `[i, len]` of the reported kind.
pub proof fn lemma_sp_scan(s: Seq<char>, i: int)
    requires
        0 <= i <= s.len(),
    ensures
        i <= sp_scan(s, i).1 <= s.len(),
        sp_scan(s, i).0 == ScanKind::Brace ==> sp_scan(s, i).1 < s.len() && s[sp_scan(s, i).1]
            == '{',
        sp_scan(s, i).0 == ScanKind::Semi ==> sp_scan(s, i).1 < s.len() && s[sp_scan(s, i).1]
            == ';',
        sp_scan(s, i).0 == ScanKind::Close ==> sp_scan(s, i).1 < s.len() && s[sp_scan(s, i).1]
            == '}',
        sp_scan(s, i).0 == ScanKind::End ==> sp_scan(s, i).1 == s.len(),
    decreases s.len() - i,
{
    if 0 <= i < s.len() {
        if s[i] == '$' && i + 1 < s.len() && s[i + 1] == '{' {
            lemma_sp_find_char(s, i + 2, s.len() as int, '}');
            let close = sp_find_char(s, i + 2, s.len() as int, '}');
            if close < s.len() {
                lemma_sp_scan(s, close + 1);
            }
        } else if s[i] != '{' && s[i] != ';' && s[i] != '}' {
            lemma_sp_scan(s, i + 1);
        }
    }
}

/// The numeric value of a decimal digit, or `-1`.
pub open spec fn sp_digit_val(c: char) -> int {
    if c == '0' {
        0
    } else if c == '1' {
        1
    } else if c == '2' {
        2
    } else if c == '3' {
        3
    } else if c == '4' {
        4
    } else if c == '5' {
        5
    } else if c == '6' {
        6
    } else if c == '7' {
        7
    } else if c == '8' {
        8
    } else if c == '9' {
        9
    } else {
        -1
    }
}

/// The value of the decimal digits in `[a, b)` accumulated onto `acc`, or
/// `None` when the region is not all digits or the value leaves the supported
/// range (nine digits).
pub open spec fn sp_digits(s: Seq<char>, a: int, b: int, acc: int) -> Option<int>
    decreases b - a,
{
    if a >= b || b > s.len() {
        Some(acc)
    } else if acc >= 100000000 {
        None
    } else if sp_digit_val(s[a]) < 0 {
        None
    } else {
        sp_digits(s, a + 1, b, acc * 10 + sp_digit_val(s[a]))
    }
}

/// The interpolation index written in `[a, b)`: its decimal value, or `None`
/// when the region is empty, not all digits, or out of the supported range.
pub open spec fn sp_parse_index(s: Seq<char>, a: int, b: int) -> Option<int> {
    if a >= b {
        None
    } else {
        sp_digits(s, a, b, 0)
    }
}

fn is_space(c: char) -> (r: bool)
    ensures
        r == sp_is_space(c),
{
    c == ' ' || c == '\t' || c == '\n' || c == '\r'
}

fn skip_ws(s: &str, i: usize) -> (r: usize)
    requires
        i <= s@.len(),
    ensures
        r as int == sp_skip_ws(s@, i as int),
        i <= r <= s@.len(),
{
    let len = s.unicode_len();
    let mut j = i;
    while j < len && is_space(s.get_char(j))
        invariant
            i <= j <= len,
            len == s@.len(),
            sp_skip_ws(s@, i as int) == sp_skip_ws(s@, j as int),
        decreases len - j,
    {
        j = j + 1;
    }
    j
}

fn find_char(s: &str, i: usize, end: usize, c: char) -> (r: usize)
    requires
        i <= end <= s@.len(),
    ensures
        r as int == sp_find_char(s@, i as int, end as int, c),
        i <= r <= end,
{
    let mut j = i;
    while j < end && s.get_char(j) != c
        invariant
            i <= j <= end,
            end <= s@.len(),
            sp_find_char(s@, i as int, end as int, c) == sp_find_char(s@, j as int, end as int, c),
        decreases end - j,
    {
        j = j + 1;
    }
    j
}

fn trim_end(s: &str, a: usize, b: usize) -> (r: usize)
    requires
        a <= b <= s@.len(),
    ensures
        r as int == sp_trim_end(s@, a as int, b as int),
        a <= r <= b,
{
    let mut j = b;
    while j > a && is_space(s.get_char(j - 1))
        invariant
            a <= j <= b,
            b <= s@.len(),
            sp_trim_end(s@, a as int, b as int) == sp_trim_end(s@, a as int, j as int),
        decreases j,
    {
        j = j - 1;
    }
    j
}

fn scan(s: &str, i: usize) -> (r: (ScanKind, usize))
    requires
        i <= s@.len(),
    ensures
        (r.0, r.1 as int) == sp_scan(s@, i as int),
        i <= r.1 <= s@.len(),
{
    let len = s.unicode_len();
    let mut j = i;
    loop
        invariant
            i <= j <= len,
            len == s@.len(),
            sp_scan(s@, i as int) == sp_scan(s@, j as int),
        decreases len - j,
    {
        if j >= len {
            return (ScanKind::End, len);
        }
        let c = s.get_char(j);
        if c == '$' && j + 1 < len && s.get_char(j + 1) == '{' {
            let close = find_char(s, j + 2, len, '}');
            if close < len {
                j = close + 1;
            } else {
                return (ScanKind::End, len);
            }
        } else if c == '{' {
            return (ScanKind::Brace, j);
        } else if c == ';' {
            return (ScanKind::Semi, j);
        } else if c == '}' {
            return (ScanKind::Close, j);
        } else {
            j = j + 1;
        }
    }
}

fn digit_val(c: char) -> (r: i32)
    ensures
        r as int == sp_digit_val(c),
{
    match c {
        '0' => 0,
        '1' => 1,
        '2' => 2,
        '3' => 3,
        '4' => 4,
        '5' => 5,
        '6' => 6,
        '7' => 7,
        '8' => 8,
        '9' => 9,
        _ => -1,
    }
}

fn parse_index(s: &str, a: usize, b: usize) -> (r: Option<usize>)
    requires
        a <= b <= s@.len(),
    ensures
        match (r, sp_parse_index(s@, a as int, b as int)) {
            (Some(v), Some(sv)) => v as int == sv,
            (None, None) => true,
            _ => false,
        },
{
    if a >= b {
        return None;
    }
    let mut j = a;
    let mut acc: usize = 0;
    loop
        invariant
            a < b,
            a <= j <= b,
            b <= s@.len(),
            acc < 1000000000,
            sp_digits(s@, a as int, b as int, 0) == sp_digits(s@, j as int, b as int, acc as int),
        decreases b - j,
    {
        if j >= b {
            return Some(acc);
        }
        if acc >= 100000000 {
            return None;
        }
        let d = digit_val(s.get_char(j));
        if d < 0 {
            return None;
        }
        acc = acc * 10 + (d as usize);
        j = j + 1;
    }
}

} // verus!

verus! {

/// The value segments of a declaration, read from `[i, end)` onto `acc`:
/// literal runs verbatim (the run that touches the terminator loses trailing
/// whitespace; an all-whitespace run is dropped) and `${index}` markers
/// replaced by the interpolation value of that index.
pub open spec fn sp_parse_value(
    s: Seq<char>,
    i: int,
    end: int,
    interps: Seq<Seq<char>>,
    acc: Seq<Seq<char>>,
    fuel: int,
) -> Result<Seq<Seq<char>>, ParseError>
    decreases fuel,
{
    if fuel <= 0 {
        Err(ParseError { kind: ParseErrorKind::UnexpectedToken, pos: i as usize })
    } else if i >= end {
        Ok(acc)
    } else {
        let d = sp_find_interp(s, i, end);
        if d > i {
            let b = if d >= end {
                sp_trim_end(s, i, d)
            } else {
                d
            };
            let acc2 = if b > i {
                acc.push(s.subrange(i, b))
            } else {
                acc
            };
            sp_parse_value(s, d, end, interps, acc2, fuel - 1)
        } else {
            let close = sp_find_char(s, i + 2, end, '}');
            if close >= end {
                Err(ParseError { kind: ParseErrorKind::UnexpectedToken, pos: i as usize })
            } else {
                match sp_parse_index(s, i + 2, close) {
                    None => Err(
                        ParseError { kind: ParseErrorKind::UnexpectedToken, pos: (i + 2) as usize },
                    ),
                    Some(idx) => if idx >= interps.len() {
                        Err(
                            ParseError {
                                kind: ParseErrorKind::InterpolationIndexOutOfRange,
                                pos: (i + 2) as usize,
                            },
                        )
                    } else {
                        sp_parse_value(s, close + 1, end, interps, acc.push(interps[idx]), fuel - 1)
                    },
                }
            }
        }
    }
}

/// One declaration `name: value` read from `[i, semi)`: the name is the
/// colon-terminated, end-trimmed text at `i`, the value the segments between
/// the colon (leading whitespace skipped) and the semicolon.
pub open spec fn sp_parse_declaration(
    s: Seq<char>,
    i: int,
    semi: int,
    interps: Seq<Seq<char>>,
    fuel: int,
) -> Result<SpecStyleAttribute, ParseError> {
    let colon = sp_find_char(s, i, semi, ':');
    if colon >= semi {
        Err(ParseError { kind: ParseErrorKind::UnexpectedToken, pos: i as usize })
    } else {
        let name_end = sp_trim_end(s, i, colon);
        if name_end <= i {
            Err(ParseError { kind: ParseErrorKind::UnexpectedToken, pos: i as usize })
        } else {
            let vstart = sp_skip_ws(s, colon + 1);
            match sp_parse_value(s, vstart, semi, interps, Seq::empty(), fuel - 1) {
                Err(e) => Err(e),
                Ok(value) => Ok(SpecStyleAttribute { name: s.subrange(i, name_end), value }),
            }
        }
    }
}

/// A maximal run of consecutive declarations starting at `i` (a non-space
/// position where a declaration starts), pushed onto `acc`; returns the
/// position right after the last semicolon.
pub open spec fn sp_parse_decl_run(
    s: Seq<char>,
    interps: Seq<Seq<char>>,
    i: int,
    acc: Seq<SpecBlockContent>,
    fuel: int,
) -> Result<(Seq<SpecBlockContent>, int), ParseError>
    decreases fuel,
{
    if fuel <= 0 {
        Err(ParseError { kind: ParseErrorKind::UnexpectedToken, pos: i as usize })
    } else {
        let (k, q) = sp_scan(s, i);
        if k != ScanKind::Semi {
            Err(ParseError { kind: ParseErrorKind::UnexpectedToken, pos: i as usize })
        } else {
            match sp_parse_declaration(s, i, q, interps, fuel - 1) {
                Err(e) => Err(e),
                Ok(attr) => {
                    let acc2 = acc.push(SpecBlockContent::StyleAttr(attr));
                    let p2 = q + 1;
                    let p3 = sp_skip_ws(s, p2);
                    if p3 < s.len() && s[p3] != '}' && s[p3] != '@' && sp_scan(s, p3).0
                        == ScanKind::Semi {
                        sp_parse_decl_run(s, interps, p3, acc2, fuel - 1)
                    } else {
                        Ok((acc2, p2))
                    }
                },
            }
        }
    }
}

/// The fragments of one selector in `[a, b)`: `&` becomes the scope
/// placeholder, the text between placeholders is kept verbatim.
pub open spec fn sp_parse_fragments(
    s: Seq<char>,
    a: int,
    b: int,
    acc: Seq<SpecSelectorFragment>,
    fuel: int,
) -> Seq<SpecSelectorFragment>
    decreases fuel,
{
    if fuel <= 0 || a >= b {
        acc
    } else {
        let amp = sp_find_char(s, a, b, '&');
        if amp == a {
            sp_parse_fragments(s, a + 1, b, acc.push(SpecSelectorFragment::Scope), fuel - 1)
        } else {
            sp_parse_fragments(
                s,
                amp,
                b,
                acc.push(SpecSelectorFragment::Text(s.subrange(a, amp))),
                fuel - 1,
            )
        }
    }
}

/// The comma-separated selectors of `[i, end)`, each trimmed at both ends; an
/// empty entry is invalid.
pub open spec fn sp_parse_selectors(
    s: Seq<char>,
    i: int,
    end: int,
    acc: Seq<SpecSelector>,
    fuel: int,
) -> Result<Seq<SpecSelector>, ParseError>
    decreases fuel,
{
    if fuel <= 0 {
        Err(ParseError { kind: ParseErrorKind::UnexpectedToken, pos: i as usize })
    } else {
        let comma = sp_find_char(s, i, end, ',');
        let a = sp_skip_ws(s, i);
        if a >= comma {
            Err(ParseError { kind: ParseErrorKind::InvalidSelector, pos: i as usize })
        } else {
            let b = sp_trim_end(s, a, comma);
            let sel = SpecSelector {
                fragments: sp_parse_fragments(s, a, b, Seq::empty(), fuel - 1),
            };
            if comma < end {
                sp_parse_selectors(s, comma + 1, end, acc.push(sel), fuel - 1)
            } else {
                Ok(acc.push(sel))
            }
        }
    }
}

/// The condition of a qualified rule: empty when `[i, end)` is all
/// whitespace (the rule binds to the enclosing condition or scope),
/// otherwise its selector list.
pub open spec fn sp_parse_condition(s: Seq<char>, i: int, end: int, fuel: int) -> Result<
    Seq<SpecSelector>,
    ParseError,
> {
    let a = sp_skip_ws(s, i);
    if a >= end {
        Ok(Seq::empty())
    } else {
        sp_parse_selectors(s, i, end, Seq::empty(), fuel)
    }
}

/// An at-rule starting at `i` (at its `@`): the raw, end-trimmed condition up
/// to the opening brace, then its rules up to the matching closing brace.
pub open spec fn sp_parse_at_rule(
    s: Seq<char>,
    interps: Seq<Seq<char>>,
    i: int,
    fuel: int,
) -> Result<(SpecAtRuleBlock, int), ParseError>
    decreases fuel,
{
    if fuel <= 0 {
        Err(ParseError { kind: ParseErrorKind::UnexpectedToken, pos: i as usize })
    } else {
        let brace = sp_find_char(s, i, s.len() as int, '{');
        if brace >= s.len() {
            Err(ParseError { kind: ParseErrorKind::UnexpectedToken, pos: i as usize })
        } else {
            let ce = sp_trim_end(s, i, brace);
            match sp_parse_rule_contents(s, interps, brace + 1, fuel - 1, Seq::empty()) {
                Err(e) => Err(e),
                Ok((items, p2, closed)) => if closed {
                    Ok((SpecAtRuleBlock { condition: s.subrange(i, ce), content: items }, p2))
                } else {
                    Err(ParseError { kind: ParseErrorKind::UnterminatedBlock, pos: p2 as usize })
                },
            }
        }
    }
}

/// A qualified rule whose selector list spans `[i, brace)`: its condition,
/// then its body up to the matching closing brace.
pub open spec fn sp_parse_qualified(
    s: Seq<char>,
    interps: Seq<Seq<char>>,
    i: int,
    brace: int,
    fuel: int,
) -> Result<(SpecBlock, int), ParseError>
    decreases fuel,
{
    if fuel <= 0 {
        Err(ParseError { kind: ParseErrorKind::UnexpectedToken, pos: i as usize })
    } else {
        match sp_parse_condition(s, i, brace, fuel - 1) {
            Err(e) => Err(e),
            Ok(condition) => match sp_parse_block_contents(
                s,
                interps,
                brace + 1,
                fuel - 1,
                Seq::empty(),
            ) {
                Err(e) => Err(e),
                Ok((content, p2)) => Ok((SpecBlock { condition, content }, p2)),
            },
        }
    }
}

/// The body of a qualified rule from `i` on: declarations, nested rules and
/// at-rules in source order, ended by the closing brace; running out of input
/// instead is an unterminated block.
pub open spec fn sp_parse_block_contents(
    s: Seq<char>,
    interps: Seq<Seq<char>>,
    i: int,
    fuel: int,
    acc: Seq<SpecBlockContent>,
) -> Result<(Seq<SpecBlockContent>, int), ParseError>
    decreases fuel,
{
    if fuel <= 0 {
        Err(ParseError { kind: ParseErrorKind::UnexpectedToken, pos: i as usize })
    } else {
        let p = sp_skip_ws(s, i);
        if p >= s.len() {
            Err(ParseError { kind: ParseErrorKind::UnterminatedBlock, pos: s.len() as usize })
        } else if s[p] == '}' {
            Ok((acc, p + 1))
        } else if s[p] == '@' {
            match sp_parse_at_rule(s, interps, p, fuel - 1) {
                Err(e) => Err(e),
                Ok((a, p2)) => sp_parse_block_contents(
                    s,
                    interps,
                    p2,
                    fuel - 1,
                    acc.push(SpecBlockContent::RuleBlock(SpecRuleBlock::AtRule(a))),
                ),
            }
        } else {
            let (k, q) = sp_scan(s, p);
            if k == ScanKind::Brace {
                match sp_parse_qualified(s, interps, p, q, fuel - 1) {
                    Err(e) => Err(e),
                    Ok((b, p2)) => sp_parse_block_contents(
                        s,
                        interps,
                        p2,
                        fuel - 1,
                        acc.push(SpecBlockContent::RuleBlock(SpecRuleBlock::Block(b))),
                    ),
                }
            } else if k == ScanKind::Semi {
                match sp_parse_declaration(s, p, q, interps, fuel - 1) {
                    Err(e) => Err(e),
                    Ok(attr) => sp_parse_block_contents(
                        s,
                        interps,
                        q + 1,
                        fuel - 1,
                        acc.push(SpecBlockContent::StyleAttr(attr)),
                    ),
                }
            } else if k == ScanKind::Close {
                Err(ParseError { kind: ParseErrorKind::UnexpectedToken, pos: p as usize })
            } else {
                Err(ParseError { kind: ParseErrorKind::UnterminatedBlock, pos: s.len() as usize })
            }
        }
    }
}

/// The rules at sheet top level or inside an at-rule, from `i` on: qualified
/// rules, at-rules, and maximal runs of bare declarations wrapped into one
/// implicit scope-bound block each. Ends at a closing brace (`true`) or at
/// the end of the input (`false`).
pub open spec fn sp_parse_rule_contents(
    s: Seq<char>,
    interps: Seq<Seq<char>>,
    i: int,
    fuel: int,
    acc: Seq<SpecRuleBlock>,
) -> Result<(Seq<SpecRuleBlock>, int, bool), ParseError>
    decreases fuel,
{
    if fuel <= 0 {
        Err(ParseError { kind: ParseErrorKind::UnexpectedToken, pos: i as usize })
    } else {
        let p = sp_skip_ws(s, i);
        if p >= s.len() {
            Ok((acc, p, false))
        } else if s[p] == '}' {
            Ok((acc, p + 1, true))
        } else if s[p] == '@' {
            match sp_parse_at_rule(s, interps, p, fuel - 1) {
                Err(e) => Err(e),
                Ok((a, p2)) => sp_parse_rule_contents(
                    s,
                    interps,
                    p2,
                    fuel - 1,
                    acc.push(SpecRuleBlock::AtRule(a)),
                ),
            }
        } else {
            let (k, q) = sp_scan(s, p);
            if k == ScanKind::Brace {
                match sp_parse_qualified(s, interps, p, q, fuel - 1) {
                    Err(e) => Err(e),
                    Ok((b, p2)) => sp_parse_rule_contents(
                        s,
                        interps,
                        p2,
                        fuel - 1,
                        acc.push(SpecRuleBlock::Block(b)),
                    ),
                }
            } else if k == ScanKind::Semi {
                match sp_parse_decl_run(s, interps, p, Seq::empty(), fuel - 1) {
                    Err(e) => Err(e),
                    Ok((attrs, p2)) => sp_parse_rule_contents(
                        s,
                        interps,
                        p2,
                        fuel - 1,
                        acc.push(
                            SpecRuleBlock::Block(
                                SpecBlock { condition: Seq::empty(), content: attrs },
                            ),
                        ),
                    ),
                }
            } else {
                Err(ParseError { kind: ParseErrorKind::UnexpectedToken, pos: p as usize })
            }
        }
    }
}

/// The recursion budget for an input of `len` characters: ample for any
/// derivation, whose depth grows at most linearly with the input.
pub open spec fn sp_fuel(len: int) -> int {
    4 * len + 16
}

/// The parse of a whole source text against the given interpolation values:
/// the sheet model, or the first error.
pub open spec fn sp_parse(s: Seq<char>, interps: Seq<Seq<char>>) -> Result<SpecSheet, ParseError> {
    match sp_parse_rule_contents(s, interps, 0, sp_fuel(s.len() as int), Seq::empty()) {
        Err(e) => Err(e),
        Ok((items, p, closed)) => if closed {
            Err(ParseError { kind: ParseErrorKind::UnexpectedToken, pos: (p - 1) as usize })
        } else {
            Ok(SpecSheet { items })
        },
    }
}

} // verus!

verus! {

fn find_interp(s: &str, i: usize, end: usize) -> (r: usize)
    requires
        i <= end <= s@.len(),
    ensures
        r as int == sp_find_interp(s@, i as int, end as int),
        i <= r <= end,
{
    let mut j = i;
    loop
        invariant
            i <= j <= end,
            end <= s@.len(),
            sp_find_interp(s@, i as int, end as int) == sp_find_interp(s@, j as int, end as int),
        decreases end - j,
    {
        if j >= end {
            return j;
        }
        if s.get_char(j) == '$' && j + 1 < end && s.get_char(j + 1) == '{' {
            return j;
        }
        j = j + 1;
    }
}

fn parse_value(
    s: &str,
    i: usize,
    end: usize,
    interps: &Vec<String>,
    acc: Vec<String>,
    fuel: u128,
) -> (r: Result<Vec<String>, ParseError>)
    requires
        i <= s@.len(),
        end <= s@.len(),
    ensures
        match (r, sp_parse_value(
            s@,
            i as int,
            end as int,
            view_strings(interps@),
            view_strings(acc@),
            fuel as int,
        )) {
            (Ok(v), Ok(sv)) => view_strings(v@) == sv,
            (Err(e), Err(se)) => e == se,
            _ => false,
        },
    decreases fuel,
{
    if fuel == 0 {
        return Err(ParseError { kind: ParseErrorKind::UnexpectedToken, pos: i });
    }
    if i >= end {
        return Ok(acc);
    }
    let d = find_interp(s, i, end);
    if d > i {
        let b = if d >= end {
            trim_end(s, i, d)
        } else {
            d
        };
        let mut acc2 = acc;
        if b > i {
            let seg = s.substring_char(i, b).to_owned();
            let ghost old_acc = acc2@;
            acc2.push(seg);
            proof {
                assert(view_strings(acc2@) =~= view_strings(old_acc).push(
                    s@.subrange(i as int, b as int),
                ));
            }
        }
        parse_value(s, d, end, interps, acc2, fuel - 1)
    } else {
        proof {
            lemma_sp_find_interp(s@, i as int, end as int);
        }
        let close = find_char(s, i + 2, end, '}');
        if close >= end {
            Err(ParseError { kind: ParseErrorKind::UnexpectedToken, pos: i })
        } else {
            match parse_index(s, i + 2, close) {
                None => Err(ParseError { kind: ParseErrorKind::UnexpectedToken, pos: i + 2 }),
                Some(ix) => {
                    if ix >= interps.len() {
                        Err(
                            ParseError {
                                kind: ParseErrorKind::InterpolationIndexOutOfRange,
                                pos: i + 2,
                            },
                        )
                    } else {
                        let mut acc2 = acc;
                        let ghost old_acc = acc2@;
                        acc2.push(interps[ix].clone());
                        proof {
                            assert(view_strings(acc2@) =~= view_strings(old_acc).push(
                                view_strings(interps@)[ix as int],
                            ));
                        }
                        parse_value(s, close + 1, end, interps, acc2, fuel - 1)
                    }
                },
            }
        }
    }
}

fn parse_declaration(s: &str, i: usize, semi: usize, interps: &Vec<String>, fuel: u128) -> (r:
    Result<StyleAttribute, ParseError>)
    requires
        i <= semi <= s@.len(),
    ensures
        match (r, sp_parse_declaration(
            s@,
            i as int,
            semi as int,
            view_strings(interps@),
            fuel as int,
        )) {
            (Ok(a), Ok(sa)) => view_attribute(a) == sa,
            (Err(e), Err(se)) => e == se,
            _ => false,
        },
{
    let colon = find_char(s, i, semi, ':');
    if colon >= semi {
        return Err(ParseError { kind: ParseErrorKind::UnexpectedToken, pos: i });
    }
    let name_end = trim_end(s, i, colon);
    if name_end <= i {
        return Err(ParseError { kind: ParseErrorKind::UnexpectedToken, pos: i });
    }
    let vstart = skip_ws(s, colon + 1);
    let sub_fuel: u128 = if fuel == 0 {
        0
    } else {
        fuel - 1
    };
    let acc0: Vec<String> = Vec::new();
    proof {
        assert(view_strings(acc0@) =~= Seq::<Seq<char>>::empty());
    }
    match parse_value(s, vstart, semi, interps, acc0, sub_fuel) {
        Err(e) => Err(e),
        Ok(value) => {
            let name = s.substring_char(i, name_end).to_owned();
            Ok(StyleAttribute { name, value })
        },
    }
}

fn parse_decl_run(s: &str, interps: &Vec<String>, i: usize, acc: Vec<BlockContent>, fuel: u128)
    -> (r: Result<(Vec<BlockContent>, usize), ParseError>)
    requires
        i <= s@.len(),
    ensures
        match (r, sp_parse_decl_run(
            s@,
            view_strings(interps@),
            i as int,
            view_contents(acc, 0),
            fuel as int,
        )) {
            (Ok(v), Ok(sv)) => view_contents(v.0, 0) == sv.0 && v.1 as int == sv.1 && v.1
                <= s@.len(),
            (Err(e), Err(se)) => e == se,
            _ => false,
        },
    decreases fuel,
{
    if fuel == 0 {
        return Err(ParseError { kind: ParseErrorKind::UnexpectedToken, pos: i });
    }
    let (k, q) = scan(s, i);
    if k != ScanKind::Semi {
        return Err(ParseError { kind: ParseErrorKind::UnexpectedToken, pos: i });
    }
    proof {
        lemma_sp_scan(s@, i as int);
    }
    match parse_declaration(s, i, q, interps, fuel - 1) {
        Err(e) => Err(e),
        Ok(attr) => {
            let ghost item = BlockContent::StyleAttr(attr);
            let ghost old_acc = acc;
            let mut acc2 = acc;
            acc2.push(BlockContent::StyleAttr(attr));
            proof {
                lemma_view_contents_push(old_acc, item, acc2);
            }
            let len = s.unicode_len();
            let p2 = q + 1;
            let p3 = skip_ws(s, p2);
            let mut more = false;
            if p3 < len {
                let c = s.get_char(p3);
                if c != '}' && c != '@' {
                    let (k2, _hit) = scan(s, p3);
                    if k2 == ScanKind::Semi {
                        more = true;
                    }
                }
            }
            if more {
                parse_decl_run(s, interps, p3, acc2, fuel - 1)
            } else {
                Ok((acc2, p2))
            }
        },
    }
}

fn parse_fragments(s: &str, a: usize, b: usize, acc: Vec<SelectorFragment>, fuel: u128) -> (r:
    Vec<SelectorFragment>)
    requires
        a <= s@.len(),
        b <= s@.len(),
    ensures
        view_fragments(r@) == sp_parse_fragments(
            s@,
            a as int,
            b as int,
            view_fragments(acc@),
            fuel as int,
        ),
    decreases fuel,
{
    if fuel == 0 || a >= b {
        return acc;
    }
    let amp = find_char(s, a, b, '&');
    if amp == a {
        let ghost old_acc = acc@;
        let mut acc2 = acc;
        acc2.push(SelectorFragment::Scope);
        proof {
            assert(view_fragments(acc2@) =~= view_fragments(old_acc).push(
                SpecSelectorFragment::Scope,
            ));
        }
        parse_fragments(s, a + 1, b, acc2, fuel - 1)
    } else {
        let seg = s.substring_char(a, amp).to_owned();
        let ghost old_acc = acc@;
        let mut acc2 = acc;
        acc2.push(SelectorFragment::Text(seg));
        proof {
            assert(view_fragments(acc2@) =~= view_fragments(old_acc).push(
                SpecSelectorFragment::Text(s@.subrange(a as int, amp as int)),
            ));
        }
        parse_fragments(s, amp, b, acc2, fuel - 1)
    }
}

fn parse_selectors(s: &str, i: usize, end: usize, acc: Vec<Selector>, fuel: u128) -> (r: Result<
    Vec<Selector>,
    ParseError,
>)
    requires
        i <= end <= s@.len(),
    ensures
        match (r, sp_parse_selectors(
            s@,
            i as int,
            end as int,
            view_selectors(acc@),
            fuel as int,
        )) {
            (Ok(v), Ok(sv)) => view_selectors(v@) == sv,
            (Err(e), Err(se)) => e == se,
            _ => false,
        },
    decreases fuel,
{
    if fuel == 0 {
        return Err(ParseError { kind: ParseErrorKind::UnexpectedToken, pos: i });
    }
    let comma = find_char(s, i, end, ',');
    let a = skip_ws(s, i);
    if a >= comma {
        return Err(ParseError { kind: ParseErrorKind::InvalidSelector, pos: i });
    }
    let b = trim_end(s, a, comma);
    let frags0: Vec<SelectorFragment> = Vec::new();
    proof {
        assert(view_fragments(frags0@) =~= Seq::<SpecSelectorFragment>::empty());
    }
    let frags = parse_fragments(s, a, b, frags0, fuel - 1);
    let sel = Selector { fragments: frags };
    let ghost gsel = sel;
    let ghost old_acc = acc@;
    let mut acc2 = acc;
    acc2.push(sel);
    proof {
        assert(view_selectors(acc2@) =~= view_selectors(old_acc).push(view_selector(gsel)));
    }
    if comma < end {
        parse_selectors(s, comma + 1, end, acc2, fuel - 1)
    } else {
        Ok(acc2)
    }
}

fn parse_condition(s: &str, i: usize, end: usize, fuel: u128) -> (r: Result<
    Vec<Selector>,
    ParseError,
>)
    requires
        i <= end <= s@.len(),
    ensures
        match (r, sp_parse_condition(s@, i as int, end as int, fuel as int)) {
            (Ok(v), Ok(sv)) => view_selectors(v@) == sv,
            (Err(e), Err(se)) => e == se,
            _ => false,
        },
{
    let a = skip_ws(s, i);
    if a >= end {
        let empty: Vec<Selector> = Vec::new();
        proof {
            assert(view_selectors(empty@) =~= Seq::<SpecSelector>::empty());
        }
        Ok(empty)
    } else {
        let acc0: Vec<Selector> = Vec::new();
        proof {
            assert(view_selectors(acc0@) =~= Seq::<SpecSelector>::empty());
        }
        parse_selectors(s, i, end, acc0, fuel)
    }
}

fn parse_at_rule(s: &str, interps: &Vec<String>, i: usize, fuel: u128) -> (r: Result<
    (AtRuleBlock, usize),
    ParseError,
>)
    requires
        i <= s@.len(),
    ensures
        match (r, sp_parse_at_rule(s@, view_strings(interps@), i as int, fuel as int)) {
            (Ok(v), Ok(sv)) => view_at_rule(v.0) == sv.0 && v.1 as int == sv.1 && v.1 <= s@.len(),
            (Err(e), Err(se)) => e == se,
            _ => false,
        },
    decreases fuel,
{
    if fuel == 0 {
        return Err(ParseError { kind: ParseErrorKind::UnexpectedToken, pos: i });
    }
    let len = s.unicode_len();
    let brace = find_char(s, i, len, '{');
    if brace >= len {
        return Err(ParseError { kind: ParseErrorKind::UnexpectedToken, pos: i });
    }
    let ce = trim_end(s, i, brace);
    let acc0: Vec<RuleBlock> = Vec::new();
    proof {
        assert(view_rules(acc0, 0) =~= Seq::<SpecRuleBlock>::empty());
    }
    match parse_rule_contents(s, interps, brace + 1, acc0, fuel - 1) {
        Err(e) => Err(e),
        Ok((items, p2, closed)) => {
            if closed {
                let condition = s.substring_char(i, ce).to_owned();
                Ok((AtRuleBlock { condition, content: items }, p2))
            } else {
                Err(ParseError { kind: ParseErrorKind::UnterminatedBlock, pos: p2 })
            }
        },
    }
}

fn parse_qualified(s: &str, interps: &Vec<String>, i: usize, brace: usize, fuel: u128) -> (r:
    Result<(Block, usize), ParseError>)
    requires
        i <= brace < s@.len(),
    ensures
        match (r, sp_parse_qualified(s@, view_strings(interps@), i as int, brace as int, fuel as int)) {
            (Ok(v), Ok(sv)) => view_block(v.0) == sv.0 && v.1 as int == sv.1 && v.1 <= s@.len(),
            (Err(e), Err(se)) => e == se,
            _ => false,
        },
    decreases fuel,
{
    if fuel == 0 {
        return Err(ParseError { kind: ParseErrorKind::UnexpectedToken, pos: i });
    }
    let len = s.unicode_len();
    match parse_condition(s, i, brace, fuel - 1) {
        Err(e) => Err(e),
        Ok(condition) => {
            let acc0: Vec<BlockContent> = Vec::new();
            proof {
                assert(view_contents(acc0, 0) =~= Seq::<SpecBlockContent>::empty());
            }
            match parse_block_contents(s, interps, brace + 1, acc0, fuel - 1) {
                Err(e) => Err(e),
                Ok((content, p2)) => Ok((Block { condition, content }, p2)),
            }
        },
    }
}

fn parse_block_contents(
    s: &str,
    interps: &Vec<String>,
    i: usize,
    acc: Vec<BlockContent>,
    fuel: u128,
) -> (r: Result<(Vec<BlockContent>, usize), ParseError>)
    requires
        i <= s@.len(),
    ensures
        match (r, sp_parse_block_contents(
            s@,
            view_strings(interps@),
            i as int,
            fuel as int,
            view_contents(acc, 0),
        )) {
            (Ok(v), Ok(sv)) => view_contents(v.0, 0) == sv.0 && v.1 as int == sv.1 && v.1
                <= s@.len(),
            (Err(e), Err(se)) => e == se,
            _ => false,
        },
    decreases fuel,
{
    if fuel == 0 {
        return Err(ParseError { kind: ParseErrorKind::UnexpectedToken, pos: i });
    }
    let p = skip_ws(s, i);
    let len = s.unicode_len();
    if p >= len {
        return Err(ParseError { kind: ParseErrorKind::UnterminatedBlock, pos: len });
    }
    let c = s.get_char(p);
    if c == '}' {
        return Ok((acc, p + 1));
    }
    if c == '@' {
        match parse_at_rule(s, interps, p, fuel - 1) {
            Err(e) => Err(e),
            Ok((a, p2)) => {
                let ghost item = BlockContent::RuleBlock(RuleBlock::AtRule(a));
                let ghost old_acc = acc;
                let mut acc2 = acc;
                acc2.push(BlockContent::RuleBlock(RuleBlock::AtRule(a)));
                proof {
                    lemma_view_contents_push(old_acc, item, acc2);
                }
                parse_block_contents(s, interps, p2, acc2, fuel - 1)
            },
        }
    } else {
        let (k, q) = scan(s, p);
        proof {
            lemma_sp_scan(s@, p as int);
        }
        if k == ScanKind::Brace {
            match parse_qualified(s, interps, p, q, fuel - 1) {
                Err(e) => Err(e),
                Ok((b, p2)) => {
                    let ghost item = BlockContent::RuleBlock(RuleBlock::Block(b));
                    let ghost old_acc = acc;
                    let mut acc2 = acc;
                    acc2.push(BlockContent::RuleBlock(RuleBlock::Block(b)));
                    proof {
                        lemma_view_contents_push(old_acc, item, acc2);
                    }
                    parse_block_contents(s, interps, p2, acc2, fuel - 1)
                },
            }
        } else if k == ScanKind::Semi {
            match parse_declaration(s, p, q, interps, fuel - 1) {
                Err(e) => Err(e),
                Ok(attr) => {
                    let ghost item = BlockContent::StyleAttr(attr);
                    let ghost old_acc = acc;
                    let mut acc2 = acc;
                    acc2.push(BlockContent::StyleAttr(attr));
                    proof {
                        lemma_view_contents_push(old_acc, item, acc2);
                    }
                    parse_block_contents(s, interps, q + 1, acc2, fuel - 1)
                },
            }
        } else if k == ScanKind::Close {
            Err(ParseError { kind: ParseErrorKind::UnexpectedToken, pos: p })
        } else {
            Err(ParseError { kind: ParseErrorKind::UnterminatedBlock, pos: len })
        }
    }
}

fn parse_rule_contents(
    s: &str,
    interps: &Vec<String>,
    i: usize,
    acc: Vec<RuleBlock>,
    fuel: u128,
) -> (r: Result<(Vec<RuleBlock>, usize, bool), ParseError>)
    requires
        i <= s@.len(),
    ensures
        match (r, sp_parse_rule_contents(
            s@,
            view_strings(interps@),
            i as int,
            fuel as int,
            view_rules(acc, 0),
        )) {
            (Ok(v), Ok(sv)) => view_rules(v.0, 0) == sv.0 && v.1 as int == sv.1 && v.2 == sv.2
                && v.1 <= s@.len() && (v.2 ==> v.1 >= 1),
            (Err(e), Err(se)) => e == se,
            _ => false,
        },
    decreases fuel,
{
    if fuel == 0 {
        return Err(ParseError { kind: ParseErrorKind::UnexpectedToken, pos: i });
    }
    let p = skip_ws(s, i);
    let len = s.unicode_len();
    if p >= len {
        return Ok((acc, p, false));
    }
    let c = s.get_char(p);
    if c == '}' {
        return Ok((acc, p + 1, true));
    }
    if c == '@' {
        match parse_at_rule(s, interps, p, fuel - 1) {
            Err(e) => Err(e),
            Ok((a, p2)) => {
                let ghost item = RuleBlock::AtRule(a);
                let ghost old_acc = acc;
                let mut acc2 = acc;
                acc2.push(RuleBlock::AtRule(a));
                proof {
                    lemma_view_rules_push(old_acc, item, acc2);
                }
                parse_rule_contents(s, interps, p2, acc2, fuel - 1)
            },
        }
    } else {
        let (k, q) = scan(s, p);
        proof {
            lemma_sp_scan(s@, p as int);
        }
        if k == ScanKind::Brace {
            match parse_qualified(s, interps, p, q, fuel - 1) {
                Err(e) => Err(e),
                Ok((b, p2)) => {
                    let ghost item = RuleBlock::Block(b);
                    let ghost old_acc = acc;
                    let mut acc2 = acc;
                    acc2.push(RuleBlock::Block(b));
                    proof {
                        lemma_view_rules_push(old_acc, item, acc2);
                    }
                    parse_rule_contents(s, interps, p2, acc2, fuel - 1)
                },
            }
        } else if k == ScanKind::Semi {
            let run0: Vec<BlockContent> = Vec::new();
            proof {
                assert(view_contents(run0, 0) =~= Seq::<SpecBlockContent>::empty());
            }
            match parse_decl_run(s, interps, p, run0, fuel - 1) {
                Err(e) => Err(e),
                Ok((attrs, p2)) => {
                    let blk = Block { condition: Vec::new(), content: attrs };
                    let ghost gblk = blk;
                    proof {
                        assert(view_selectors(gblk.condition@) =~= Seq::<SpecSelector>::empty());
                    }
                    let ghost item = RuleBlock::Block(gblk);
                    let ghost old_acc = acc;
                    let mut acc2 = acc;
                    acc2.push(RuleBlock::Block(blk));
                    proof {
                        lemma_view_rules_push(old_acc, item, acc2);
                    }
                    parse_rule_contents(s, interps, p2, acc2, fuel - 1)
                },
            }
        } else {
            Err(ParseError { kind: ParseErrorKind::UnexpectedToken, pos: p })
        }
    }
}

/// Parses a source text against the given interpolation values into a sheet:
/// the result is exactly the model that `sp_parse` assigns to the text, so
/// parsing is deterministic, and every error of `sp_parse` — an unexpected
/// token, an unterminated block, an invalid selector, an interpolation index
/// with no value — comes back exactly when the text shows it.
pub fn parse(text: &str, interpolations: &Vec<String>) -> (r: Result<Sheet, ParseError>)
    ensures
        match (r, sp_parse(text@, view_strings(interpolations@))) {
            (Ok(sheet), Ok(v)) => sheet@ == v,
            (Err(e), Err(se)) => e == se,
            _ => false,
        },
{
    let len = text.unicode_len();
    let fuel: u128 = 4 * (len as u128) + 16;
    let acc0: Vec<RuleBlock> = Vec::new();
    proof {
        assert(view_rules(acc0, 0) =~= Seq::<SpecRuleBlock>::empty());
    }
    match parse_rule_contents(text, interpolations, 0, acc0, fuel) {
        Err(e) => Err(e),
        Ok((items, p, closed)) => {
            if closed {
                Err(ParseError { kind: ParseErrorKind::UnexpectedToken, pos: p - 1 })
            } else {
                Ok(Sheet { items })
            }
        },
    }
}

} // verus!
