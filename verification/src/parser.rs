//! The source-language parser.
//!
//! A source is line-oriented: blank lines, then a header line `hihi!`, then
//! zero or more quoted string statements, then a terminator line
//! `eat that java!`; everything after the terminator is ignored.  Each
//! statement is one quoted literal with backslash escapes; its decoded text
//! runs through placeholder resolution.  Parsing is one left-to-right pass.

use crate::errors::ParseError;
use crate::placeholder::Resolution;
use crate::placeholder::process_placeholders;
use crate::placeholder::resolve_from;
use crate::placeholder::sorted_unique;
use crate::text::chars_eq_str;
use crate::text::chars_to_string;
use crate::text::is_space_char;
use crate::text::tail_from;
use crate::text::to_chars;
use crate::text::trim_chars;
use crate::text::trim_start_idx;
use crate::text::trim_start_index;
use crate::text::trimmed;
use vstd::prelude::*;

verus! {

/// The index of the first newline at or after `i`, or the length of `s`.
pub open spec fn find_nl(s: Seq<char>, i: int) -> int
    decreases s.len() - i,
{
    if i < 0 || i >= s.len() || s[i] == '\n' {
        i
    } else {
        find_nl(s, i + 1)
    }
}

pub proof fn lemma_find_nl_bounds(s: Seq<char>, i: int)
    requires
        0 <= i <= s.len(),
    ensures
        i <= find_nl(s, i) <= s.len(),
    decreases s.len() - i,
{
    if i < s.len() && s[i] != '\n' {
        lemma_find_nl_bounds(s, i + 1);
    }
}

/// A line with one trailing carriage return removed.
pub open spec fn strip_cr(l: Seq<char>) -> Seq<char> {
    if l.len() > 0 && l.last() == '\r' {
        l.drop_last()
    } else {
        l
    }
}

/// The lines of the suffix of `s` starting at `i`: split at newlines, each
/// newline-terminated line with one trailing carriage return removed, and no
/// empty final line when the text ends with a newline.
pub open spec fn lines_from(s: Seq<char>, i: int) -> Seq<Seq<char>>
    decreases s.len() - i,
    via lines_from_dec
{
    if i < 0 || i >= s.len() {
        Seq::empty()
    } else {
        let j = find_nl(s, i);
        if j >= s.len() {
            seq![s.subrange(i, j)]
        } else {
            seq![strip_cr(s.subrange(i, j))] + lines_from(s, j + 1)
        }
    }
}

#[via_fn]
proof fn lines_from_dec(s: Seq<char>, i: int) {
    if 0 <= i && i < s.len() {
        lemma_find_nl_bounds(s, i);
    }
}

/// The lines of `s`.
pub open spec fn lines_of(s: Seq<char>) -> Seq<Seq<char>> {
    lines_from(s, 0)
}

/// The views of a vector of lines.
pub open spec fn line_views(v: Seq<Vec<char>>) -> Seq<Seq<char>> {
    Seq::new(v.len(), |i: int| v[i]@)
}

/// The index of the first line at or after `i` that is not blank, or the
/// number of lines.
pub open spec fn first_nonblank(lines: Seq<Seq<char>>, i: int) -> int
    decreases lines.len() - i,
{
    if i < 0 || i >= lines.len() {
        lines.len() as int
    } else if trimmed(lines[i]).len() == 0 {
        first_nonblank(lines, i + 1)
    } else {
        i
    }
}

/// The character an escaped character decodes to: `n`, `t` and `r` become
/// control characters; anything else, backslash and quote included, stands
/// for itself.
pub open spec fn unescape_char(c: char) -> char {
    if c == 'n' {
        '\n'
    } else if c == 't' {
        '\t'
    } else if c == 'r' {
        '\r'
    } else {
        c
    }
}

/// The outcome of scanning a quoted literal's body for its closing quote.
pub enum LitScan {
    /// The literal closes at index `close`; `inner` is the decoded text.
    Closed { inner: Seq<char>, close: int },
    /// The line ends before an unescaped closing quote.
    Unclosed,
}

/// Prefixes decoded text onto a literal scan outcome.
pub open spec fn lit_acc(pre: Seq<char>, r: LitScan) -> LitScan {
    match r {
        LitScan::Closed { inner, close } => LitScan::Closed { inner: pre + inner, close },
        LitScan::Unclosed => LitScan::Unclosed,
    }
}

/// Scans `s` from `i` for an unescaped closing quote, decoding backslash
/// escapes; `esc` says whether the previous character was an unconsumed
/// backslash.
pub open spec fn scan_literal(s: Seq<char>, i: int, esc: bool) -> LitScan
    decreases s.len() - i,
{
    if i < 0 || i >= s.len() {
        LitScan::Unclosed
    } else if esc {
        lit_acc(seq![unescape_char(s[i])], scan_literal(s, i + 1, false))
    } else if s[i] == '\\' {
        scan_literal(s, i + 1, true)
    } else if s[i] == '"' {
        LitScan::Closed { inner: Seq::empty(), close: i }
    } else {
        lit_acc(seq![s[i]], scan_literal(s, i + 1, false))
    }
}

/// The outcome of parsing a whole source text.
pub enum SpecParse {
    /// The resolved statement texts in source order, and every argument
    /// index referenced by any of them.
    Parsed { stmts: Seq<Seq<char>>, args: Set<usize> },
    /// No non-blank line at all.
    EmptySource,
    /// The first non-blank line is not the header token.
    BadHeader,
    /// The non-blank line numbered `line` (1-based) opens with no quote.
    NotString { line: nat, content: Seq<char> },
    /// The statement at `line` has non-whitespace text after its closing
    /// quote.
    TrailingChars { line: nat, trailing: Seq<char> },
    /// The statement at `line` never closes its quote.
    UnclosedString { line: nat, content: Seq<char> },
    /// No terminator line follows the statements.
    NoTerminator,
    /// A placeholder referenced argument index zero.
    ZeroIdx,
    /// A placeholder digit run too large for an argument index.
    HugeIdx { digits: Seq<char> },
}

/// Prefixes statements and merges indices into a parse outcome; failures
/// pass through unchanged.
pub open spec fn parse_acc(stmts: Seq<Seq<char>>, args: Set<usize>, r: SpecParse) -> SpecParse {
    match r {
        SpecParse::Parsed { stmts: s2, args: a2 } => SpecParse::Parsed {
            stmts: stmts + s2,
            args: args.union(a2),
        },
        e => e,
    }
}

/// Parses the statement block from line `i` on: blank lines are skipped, the
/// terminator ends the block, and every other line must be a quoted literal
/// whose decoded text resolves.  Line numbers in errors are 1-based.
pub open spec fn parse_body(lines: Seq<Seq<char>>, i: int) -> SpecParse
    decreases lines.len() - i,
{
    if i < 0 || i >= lines.len() {
        SpecParse::NoTerminator
    } else if trimmed(lines[i]).len() == 0 {
        parse_body(lines, i + 1)
    } else if trimmed(lines[i]) == "eat that java!"@ {
        SpecParse::Parsed { stmts: Seq::empty(), args: Set::empty() }
    } else {
        let t = lines[i].subrange(trim_start_idx(lines[i], 0), lines[i].len() as int);
        if t.len() == 0 || t[0] != '"' {
            SpecParse::NotString { line: (i + 1) as nat, content: lines[i] }
        } else {
            match scan_literal(t, 1, false) {
                LitScan::Unclosed => SpecParse::UnclosedString {
                    line: (i + 1) as nat,
                    content: lines[i],
                },
                LitScan::Closed { inner, close } => {
                    let rest = t.subrange(close + 1, t.len() as int);
                    if trimmed(rest).len() != 0 {
                        SpecParse::TrailingChars { line: (i + 1) as nat, trailing: rest }
                    } else {
                        match resolve_from(inner, 0) {
                            Resolution::ZeroIndex => SpecParse::ZeroIdx,
                            Resolution::HugeIndex { digits } => SpecParse::HugeIdx { digits },
                            Resolution::Resolved { text, indices } => parse_acc(
                                seq![text],
                                indices,
                                parse_body(lines, i + 1),
                            ),
                        }
                    }
                },
            }
        }
    }
}

/// The parse of a whole source text: find the header among leading blank
/// lines, then parse the statement block after it.
pub open spec fn spec_parse(s: Seq<char>) -> SpecParse {
    let lines = lines_of(s);
    let h = first_nonblank(lines, 0);
    if h >= lines.len() {
        SpecParse::EmptySource
    } else if trimmed(lines[h]) != "hihi!"@ {
        SpecParse::BadHeader
    } else {
        parse_body(lines, h + 1)
    }
}

/// The parse outcome a reported error stands for.
pub open spec fn error_model(e: ParseError) -> SpecParse {
    match e {
        ParseError::MissingHeader { source_empty } => if source_empty {
            SpecParse::EmptySource
        } else {
            SpecParse::BadHeader
        },
        ParseError::ExpectedStringStatement { line, content } => SpecParse::NotString {
            line: line as nat,
            content: content@,
        },
        ParseError::UnterminatedString { line, content } => SpecParse::UnclosedString {
            line: line as nat,
            content: content@,
        },
        ParseError::TrailingCharacters { line, trailing } => SpecParse::TrailingChars {
            line: line as nat,
            trailing: trailing@,
        },
        ParseError::MissingTerminator => SpecParse::NoTerminator,
        ParseError::ZeroArgumentIndex => SpecParse::ZeroIdx,
        ParseError::InvalidArgumentIndex { digits } => SpecParse::HugeIdx { digits: digits@ },
    }
}

/// The statement texts joined by single newlines.
pub open spec fn join_nl(ss: Seq<Seq<char>>) -> Seq<char>
    decreases ss.len(),
{
    if ss.len() == 0 {
        Seq::empty()
    } else if ss.len() == 1 {
        ss[0]
    } else {
        ss[0] + seq!['\n'] + join_nl(ss.drop_first())
    }
}

pub proof fn lemma_join_push(ss: Seq<Seq<char>>, t: Seq<char>)
    ensures
        ss.len() == 0 ==> join_nl(ss.push(t)) == t,
        ss.len() > 0 ==> join_nl(ss.push(t)) == join_nl(ss) + seq!['\n'] + t,
    decreases ss.len(),
{
    let p = ss.push(t);
    if ss.len() == 0 {
        assert(p.len() == 1);
        assert(p[0] == t);
    } else if ss.len() == 1 {
        assert(p.len() == 2);
        assert(p.drop_first() =~= seq![t]);
        assert(join_nl(seq![t]) == t);
        assert(p[0] == ss[0]);
    } else {
        lemma_join_push(ss.drop_first(), t);
        assert(p.drop_first() =~= ss.drop_first().push(t));
        assert(join_nl(ss) + seq!['\n'] + t =~= ss[0] + seq!['\n'] + (join_nl(ss.drop_first())
            + seq!['\n'] + t));
    }
}

/// Splits `s` into its lines.
pub fn split_lines(s: &Vec<char>) -> (r: Vec<Vec<char>>)
    ensures
        line_views(r@) == lines_of(s@),
{
    let n = s.len();
    let mut r: Vec<Vec<char>> = Vec::new();
    let mut cur: Vec<char> = Vec::new();
    let mut start: usize = 0;
    let mut i: usize = 0;
    proof {
        assert(line_views(r@) =~= Seq::<Seq<char>>::empty());
        assert(lines_of(s@) =~= Seq::<Seq<char>>::empty() + lines_from(s@, 0));
    }
    while i < n
        invariant
            start <= i <= n,
            n == s@.len(),
            cur@ == s@.subrange(start as int, i as int),
            forall|k: int| start <= k < i ==> s@[k] != '\n',
            lines_of(s@) == line_views(r@) + lines_from(s@, start as int),
        decreases n - i,
    {
        let c = s[i];
        if c == '\n' {
            proof {
                lemma_find_nl_at(s@, start as int, i as int);
            }
            let ghost r0 = r@;
            let mut line = cur;
            if line.len() > 0 && line[line.len() - 1] == '\r' {
                line.pop();
                proof {
                    assert(line@ =~= s@.subrange(start as int, i as int).drop_last());
                }
            }
            proof {
                assert(line@ == strip_cr(s@.subrange(start as int, i as int)));
            }
            r.push(line);
            cur = Vec::new();
            proof {
                assert(line_views(r@) =~= line_views(r0).push(strip_cr(
                    s@.subrange(start as int, i as int),
                )));
                assert(lines_from(s@, start as int) == seq![
                    strip_cr(s@.subrange(start as int, i as int)),
                ] + lines_from(s@, i + 1 as int));
                assert(line_views(r0) + lines_from(s@, start as int) =~= line_views(r@)
                    + lines_from(s@, i + 1 as int));
                assert(cur@ =~= s@.subrange(i + 1 as int, i + 1 as int));
            }
            start = i + 1;
        } else {
            cur.push(c);
            proof {
                assert(cur@ =~= s@.subrange(start as int, i + 1 as int));
            }
        }
        i += 1;
    }
    if start < n {
        proof {
            lemma_find_nl_at_end(s@, start as int);
            assert(cur@ == s@.subrange(start as int, n as int));
        }
        let ghost r0 = r@;
        r.push(cur);
        proof {
            assert(lines_from(s@, start as int) == seq![s@.subrange(start as int, n as int)]);
            assert(line_views(r@) =~= line_views(r0).push(s@.subrange(start as int, n as int)));
            assert(line_views(r0) + lines_from(s@, start as int) =~= line_views(r@));
        }
    } else {
        proof {
            assert(lines_from(s@, start as int) =~= Seq::<Seq<char>>::empty());
            assert(line_views(r@) + lines_from(s@, start as int) =~= line_views(r@));
        }
    }
    r
}

proof fn lemma_find_nl_at(s: Seq<char>, start: int, i: int)
    requires
        0 <= start <= i < s.len(),
        forall|k: int| start <= k < i ==> s[k] != '\n',
        s[i] == '\n',
    ensures
        find_nl(s, start) == i,
    decreases i - start,
{
    if start < i {
        lemma_find_nl_at(s, start + 1, i);
    }
}

proof fn lemma_find_nl_at_end(s: Seq<char>, start: int)
    requires
        0 <= start <= s.len(),
        forall|k: int| start <= k < s.len() ==> s[k] != '\n',
    ensures
        find_nl(s, start) == s.len(),
    decreases s.len() - start,
{
    if start < s.len() {
        lemma_find_nl_at_end(s, start + 1);
    }
}

/// Scans the trim-started line `t` from just past the opening quote; returns
/// the decoded literal and the closing quote's index, or nothing when the
/// literal never closes.
fn scan_literal_exec(t: &Vec<char>) -> (r: Option<(Vec<char>, usize)>)
    requires
        t@.len() >= 1,
    ensures
        match r {
            Some((inner, close)) => scan_literal(t@, 1, false) == (LitScan::Closed {
                inner: inner@,
                close: close as int,
            }) && 1 <= close < t@.len(),
            None => scan_literal(t@, 1, false) == LitScan::Unclosed,
        },
{
    let n = t.len();
    let mut inner: Vec<char> = Vec::new();
    let mut esc = false;
    let mut i: usize = 1;
    while i < n
        invariant
            1 <= i <= n,
            n == t@.len(),
            scan_literal(t@, 1, false) == lit_acc(inner@, scan_literal(t@, i as int, esc)),
        decreases n - i,
    {
        let c = t[i];
        let ghost inner0 = inner@;
        if esc {
            let d = if c == 'n' {
                '\n'
            } else if c == 't' {
                '\t'
            } else if c == 'r' {
                '\r'
            } else {
                c
            };
            inner.push(d);
            proof {
                assert(d == unescape_char(t@[i as int]));
                assert(inner@ =~= inner0 + seq![unescape_char(t@[i as int])]);
                lemma_lit_acc_compose(inner0, seq![unescape_char(t@[i as int])], t@, i + 1, false);
            }
            esc = false;
        } else if c == '\\' {
            esc = true;
        } else if c == '"' {
            proof {
                assert(scan_literal(t@, i as int, false) == LitScan::Closed {
                    inner: Seq::empty(),
                    close: i as int,
                });
                assert(inner0 + Seq::<char>::empty() =~= inner0);
            }
            return Some((inner, i));
        } else {
            inner.push(c);
            proof {
                assert(inner@ =~= inner0 + seq![t@[i as int]]);
                lemma_lit_acc_compose(inner0, seq![t@[i as int]], t@, i + 1, false);
            }
        }
        i += 1;
    }
    proof {
        assert(scan_literal(t@, i as int, esc) == LitScan::Unclosed);
    }
    None
}

proof fn lemma_lit_acc_compose(pre: Seq<char>, mid: Seq<char>, s: Seq<char>, j: int, esc: bool)
    ensures
        lit_acc(pre, lit_acc(mid, scan_literal(s, j, esc))) == lit_acc(
            pre + mid,
            scan_literal(s, j, esc),
        ),
{
    match scan_literal(s, j, esc) {
        LitScan::Closed { inner, close } => {
            assert(pre + (mid + inner) =~= (pre + mid) + inner);
        },
        LitScan::Unclosed => {},
    }
}

/// Parses a whole source text: the header line, the quoted statements with
/// their placeholders resolved, and the terminator.  On success the result
/// holds the resolved statement texts joined by newlines and the referenced
/// argument indices, sorted ascending without duplicates.
pub fn parse_matthiashihic(contents: &str) -> (r: Result<(String, Vec<usize>), ParseError>)
    ensures
        match r {
            Ok((code, args)) => (match spec_parse(contents@) {
                SpecParse::Parsed { stmts, args: a } => {
                    &&& code@ == join_nl(stmts)
                    &&& args@.to_set() == a
                    &&& sorted_unique(args@)
                },
                _ => false,
            }),
            Err(e) => spec_parse(contents@) == error_model(e),
        },
{
    let cs = to_chars(contents);
    let lines = split_lines(&cs);
    let ghost lv = line_views(lines@);
    let n = lines.len();
    proof {
        assert(lv.len() == n);
        assert(forall|k: int| 0 <= k < n ==> lv[k] == lines@[k]@);
    }
    let mut h: usize = 0;
    while h < n && line_blank(&lines[h])
        invariant
            h <= n,
            n == lines@.len(),
            lv == line_views(lines@),
            first_nonblank(lv, 0) == first_nonblank(lv, h as int),
        decreases n - h,
    {
        h += 1;
    }
    if h == n {
        proof {
            assert(first_nonblank(lv, n as int) == n as int);
        }
        return Err(ParseError::MissingHeader { source_empty: true });
    }
    proof {
        assert(first_nonblank(lv, h as int) == h as int);
    }
    let hdr = trim_chars(&lines[h]);
    if !chars_eq_str(&hdr, "hihi!") {
        return Err(ParseError::MissingHeader { source_empty: false });
    }
    let ghost start_body: int = h as int + 1;
    proof {
        assert(spec_parse(contents@) == parse_body(lv, start_body));
    }
    let mut code_acc: Vec<char> = Vec::new();
    let ghost mut stmts: Seq<Seq<char>> = Seq::empty();
    let mut nstmts: usize = 0;
    let mut args: Vec<usize> = Vec::new();
    let mut i = h + 1;
    proof {
        assert(args@.to_set() =~= Set::<usize>::empty());
        match parse_body(lv, i as int) {
            SpecParse::Parsed { stmts: s2, args: a2 } => {
                assert(Seq::<Seq<char>>::empty() + s2 =~= s2);
                assert(Set::<usize>::empty().union(a2) =~= a2);
            },
            _ => {},
        }
    }
    while i < n
        invariant
            i <= n,
            n == lines@.len(),
            lv == line_views(lines@),
            spec_parse(contents@) == parse_body(lv, start_body),
            parse_body(lv, start_body) == parse_acc(stmts, args@.to_set(), parse_body(lv, i as int)),
            code_acc@ == join_nl(stmts),
            nstmts == stmts.len(),
            nstmts <= i,
            sorted_unique(args@),
        decreases n - i,
    {
        let line = &lines[i];
        let ghost raw = lv[i as int];
        proof {
            assert(raw == line@);
        }
        let tline = trim_chars(line);
        if tline.len() == 0 {
            i += 1;
            continue;
        }
        if chars_eq_str(&tline, "eat that java!") {
            proof {
                assert(parse_body(lv, i as int) == SpecParse::Parsed {
                    stmts: Seq::empty(),
                    args: Set::empty(),
                });
                assert(stmts + Seq::<Seq<char>>::empty() =~= stmts);
                assert(args@.to_set().union(Set::<usize>::empty()) =~= args@.to_set());
                assert(parse_body(lv, start_body) == SpecParse::Parsed {
                    stmts,
                    args: args@.to_set(),
                });
            }
            let code = chars_to_string(&code_acc);
            return Ok((code, args));
        }
        let a = trim_start_index(line);
        let t = tail_from(line, a);
        let ghost tg = raw.subrange(trim_start_idx(raw, 0), raw.len() as int);
        proof {
            assert(t@ == tg);
        }
        if t.len() == 0 || t[0] != '"' {
            return Err(ParseError::ExpectedStringStatement {
                line: i + 1,
                content: chars_to_string(line),
            });
        }
        let scanned = scan_literal_exec(&t);
        let (inner, close) = match scanned {
            None => {
                return Err(ParseError::UnterminatedString {
                    line: i + 1,
                    content: chars_to_string(line),
                });
            },
            Some(p) => p,
        };
        let rest = tail_from(&t, close + 1);
        let trest = trim_chars(&rest);
        if trest.len() != 0 {
            return Err(ParseError::TrailingCharacters {
                line: i + 1,
                trailing: chars_to_string(&rest),
            });
        }
        let inner_str = chars_to_string(&inner);
        let ghost args0 = args@;
        let ghost stmts0 = stmts;
        let ghost code0 = code_acc@;
        let text = match process_placeholders(&inner_str, &mut args) {
            Ok(text) => text,
            Err(e) => {
                proof {
                    match resolve_from(inner@, 0) {
                        Resolution::ZeroIndex => {
                            assert(parse_body(lv, i as int) == SpecParse::ZeroIdx);
                        },
                        Resolution::HugeIndex { digits: d } => {
                            assert(parse_body(lv, i as int) == (SpecParse::HugeIdx { digits: d }));
                        },
                        _ => {},
                    }
                }
                return Err(e);
            },
        };
        if nstmts > 0 {
            code_acc.push('\n');
        }
        crate::text::append_str(&mut code_acc, text.as_str());
        nstmts += 1;
        proof {
            stmts = stmts0.push(text@);
            lemma_join_push(stmts0, text@);
            if stmts0.len() > 0 {
                assert(code_acc@ =~= join_nl(stmts0) + seq!['\n'] + text@);
            } else {
                assert(code_acc@ =~= text@);
            }
            let res = resolve_from(inner@, 0);
            match res {
                Resolution::Resolved { text: tt, indices } => {
                    assert(parse_body(lv, i as int) == parse_acc(
                        seq![tt],
                        indices,
                        parse_body(lv, i + 1 as int),
                    ));
                    assert(args@.to_set() == args0.to_set().union(indices));
                    lemma_parse_acc_compose(
                        stmts0,
                        args0.to_set(),
                        seq![tt],
                        indices,
                        lv,
                        i + 1 as int,
                    );
                    assert(stmts0 + seq![tt] =~= stmts0.push(text@));
                },
                _ => {
                    assert(false);
                },
            }
        }
        i += 1;
    }
    proof {
        assert(parse_body(lv, n as int) == SpecParse::NoTerminator);
    }
    Err(ParseError::MissingTerminator)
}

proof fn lemma_parse_acc_compose(
    stmts: Seq<Seq<char>>,
    args: Set<usize>,
    s2: Seq<Seq<char>>,
    a2: Set<usize>,
    lines: Seq<Seq<char>>,
    j: int,
)
    ensures
        parse_acc(stmts, args, parse_acc(s2, a2, parse_body(lines, j))) == parse_acc(
            stmts + s2,
            args.union(a2),
            parse_body(lines, j),
        ),
{
    match parse_body(lines, j) {
        SpecParse::Parsed { stmts: s3, args: a3 } => {
            assert(stmts + (s2 + s3) =~= (stmts + s2) + s3);
            assert(args.union(a2.union(a3)) =~= args.union(a2).union(a3));
        },
        _ => {},
    }
}

/// Whether a line is a complete, well-formed quoted statement: it opens with
/// a quote after leading whitespace, the quote closes on the line, only
/// whitespace follows, and its placeholders resolve.
pub open spec fn good_statement(l: Seq<char>) -> bool {
    let t = l.subrange(trim_start_idx(l, 0), l.len() as int);
    &&& t.len() > 0
    &&& t[0] == '"'
    &&& match scan_literal(t, 1, false) {
        LitScan::Closed { inner, close } => {
            &&& trimmed(t.subrange(close + 1, t.len() as int)).len() == 0
            &&& resolve_from(inner, 0) is Resolved
        },
        LitScan::Unclosed => false,
    }
}

/// A source whose statement block never reaches the terminator fails with
/// the missing-terminator error, however many blank lines and well-formed
/// statements stand in it.
pub proof fn lemma_missing_terminator(lines: Seq<Seq<char>>, i: int)
    requires
        0 <= i <= lines.len(),
        forall|k: int| i <= k < lines.len() ==> trimmed(lines[k]) != "eat that java!"@,
        forall|k: int|
            i <= k < lines.len() ==> (trimmed(lines[k]).len() == 0 || good_statement(lines[k])),
    ensures
        parse_body(lines, i) == SpecParse::NoTerminator,
    decreases lines.len() - i,
{
    if i < lines.len() {
        lemma_missing_terminator(lines, i + 1);
        if trimmed(lines[i]).len() == 0 {
        } else {
            assert(good_statement(lines[i]));
        }
    }
}

/// Whether the line is blank after trimming.
fn line_blank(l: &Vec<char>) -> (r: bool)
    ensures
        r == (trimmed(l@).len() == 0),
{
    let t = trim_chars(l);
    t.len() == 0
}

} // verus!
