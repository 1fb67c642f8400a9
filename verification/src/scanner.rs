//! Lexical analysis.
//!
//! The scanner consumes the full source text in one left-to-right pass and
//! produces a token sequence terminated by one end-of-input token. Lexical
//! errors are reported as diagnostics with the current line, and scanning
//! continues at the next character: recovery happens at this stage only.
//!
//! The whole pass is specified by [`scan_spec`], a character-level model of
//! the scan; `scan_tokens` is proved to produce exactly its tokens and
//! diagnostics.

use vstd::prelude::*;
use vstd::string::{StrSliceExecFns, StringExecFns};

use crate::diag::{diags_view, Diag, DiagKind, DiagV};
use crate::num::Num;
use crate::token::{toks_view, LitV, Literal, Token, TokenV};
use crate::token_type::TokenType;

verus! {

broadcast use vstd::string::to_string_from_display_ensures_for_str;

/// Whether a character is a decimal digit.
pub open spec fn is_digit(c: char) -> bool {
    '0' <= c && c <= '9'
}

/// The value of a decimal digit character.
pub open spec fn digit_val(c: char) -> int {
    c as int - '0' as int
}

/// The index just past the run of digits starting at `pos`.
pub open spec fn digits_end(src: Seq<char>, pos: int) -> int
    decreases src.len() - pos,
{
    if 0 <= pos < src.len() && is_digit(src[pos]) {
        digits_end(src, pos + 1)
    } else {
        pos
    }
}

/// The value of the digit run `src[i .. j)`.
pub open spec fn digits_val(src: Seq<char>, i: int, j: int) -> int
    decreases j - i,
{
    if i >= j {
        0
    } else {
        digits_val(src, i, j - 1) * 10 + digit_val(src[j - 1])
    }
}

/// Ten to the power `k`.
pub open spec fn pow10(k: int) -> int
    decreases k,
{
    if k <= 0 {
        1
    } else {
        pow10(k - 1) * 10
    }
}

/// The first index at or past `pos` holding a closing quote, or the length.
pub open spec fn str_end(src: Seq<char>, pos: int) -> int
    decreases src.len() - pos,
{
    if 0 <= pos < src.len() {
        if src[pos] == '"' {
            pos
        } else {
            str_end(src, pos + 1)
        }
    } else {
        src.len() as int
    }
}

/// The first index at or past `pos` holding a newline, or the length.
pub open spec fn line_end(src: Seq<char>, pos: int) -> int
    decreases src.len() - pos,
{
    if 0 <= pos < src.len() {
        if src[pos] == '\n' {
            pos
        } else {
            line_end(src, pos + 1)
        }
    } else {
        src.len() as int
    }
}

/// How many newlines `src[i .. j)` holds.
pub open spec fn newlines(src: Seq<char>, i: int, j: int) -> int
    decreases j - i,
{
    if i >= j {
        0
    } else {
        newlines(src, i, j - 1) + if src[j - 1] == '\n' {
            1int
        } else {
            0int
        }
    }
}

/// The token kind of a character that scans alone, where it has one.
pub open spec fn single_kind(c: char) -> Option<TokenType> {
    if c == '(' {
        Some(TokenType::LeftParen)
    } else if c == ')' {
        Some(TokenType::RightParen)
    } else if c == '{' {
        Some(TokenType::LeftBrace)
    } else if c == '}' {
        Some(TokenType::RightBrace)
    } else if c == ',' {
        Some(TokenType::Comma)
    } else if c == '.' {
        Some(TokenType::Dot)
    } else if c == '-' {
        Some(TokenType::Minus)
    } else if c == '+' {
        Some(TokenType::Plus)
    } else if c == ';' {
        Some(TokenType::Semicolon)
    } else if c == '*' {
        Some(TokenType::Star)
    } else if c == '^' {
        Some(TokenType::Caret)
    } else {
        None
    }
}

/// The token kinds of the four one-or-two-character operators: alone, and
/// followed by `=`.
pub open spec fn pair_kinds(c: char) -> Option<(TokenType, TokenType)> {
    if c == '!' {
        Some((TokenType::Bang, TokenType::BangEqual))
    } else if c == '=' {
        Some((TokenType::Equal, TokenType::EqualEqual))
    } else if c == '<' {
        Some((TokenType::Less, TokenType::LessEqual))
    } else if c == '>' {
        Some((TokenType::Greater, TokenType::GreaterEqual))
    } else {
        None
    }
}

/// A token over the source slice `src[i .. j)`.
pub open spec fn tok(
    kind: TokenType,
    src: Seq<char>,
    i: int,
    j: int,
    lit: LitV,
    line: int,
) -> TokenV {
    TokenV { kind, lexeme: src.subrange(i, j), literal: lit, line }
}

/// The end-of-input token.
pub open spec fn eof_tok(line: int) -> TokenV {
    TokenV { kind: TokenType::EOF, lexeme: Seq::empty(), literal: LitV::Absent, line }
}

/// A diagnostic citing no name.
pub open spec fn dg(line: int, kind: DiagKind) -> DiagV {
    DiagV { line, kind, name: Seq::empty() }
}

/// The effect of one scanning step.
pub struct StepV {
    pub next: int,
    pub line: int,
    pub toks: Seq<TokenV>,
    pub diags: Seq<DiagV>,
}

/// Where a numeric literal starting at `pos` ends: past its digits, and past
/// a point and the following digits where a fractional part is present.
pub open spec fn num_end(src: Seq<char>, pos: int) -> int {
    let ie = digits_end(src, pos);
    if ie + 1 < src.len() && src[ie] == '.' && is_digit(src[ie + 1]) {
        digits_end(src, ie + 1)
    } else {
        ie
    }
}

/// The exact numerator of the numeric literal `src[pos .. num_end)`.
pub open spec fn num_lit_n(src: Seq<char>, pos: int) -> int {
    let ie = digits_end(src, pos);
    let end = num_end(src, pos);
    if end == ie {
        digits_val(src, pos, ie)
    } else {
        digits_val(src, pos, ie) * pow10(end - ie - 1) + digits_val(src, ie + 1, end)
    }
}

/// The exact denominator of the numeric literal `src[pos .. num_end)`: ten to
/// the number of fraction digits.
pub open spec fn num_lit_d(src: Seq<char>, pos: int) -> int {
    let ie = digits_end(src, pos);
    pow10(num_end(src, pos) - ie - if num_end(src, pos) == ie {
        0int
    } else {
        1int
    })
}

/// Whether the literal's exact value fits the runtime representation.
pub open spec fn num_lit_fits(src: Seq<char>, pos: int) -> bool {
    num_lit_n(src, pos) <= i64::MAX && num_lit_d(src, pos) <= u32::MAX
}

/// One scanning step at `pos` (which must be in range): what is consumed,
/// the line afterwards, and the token or diagnostic produced.
pub open spec fn scan_step(src: Seq<char>, pos: int, line: int) -> StepV {
    let c = src[pos];
    if single_kind(c) is Some {
        StepV {
            next: pos + 1,
            line,
            toks: seq![tok(single_kind(c)->Some_0, src, pos, pos + 1, LitV::Absent, line)],
            diags: seq![],
        }
    } else if pair_kinds(c) is Some {
        let ks = pair_kinds(c)->Some_0;
        if pos + 1 < src.len() && src[pos + 1] == '=' {
            StepV {
                next: pos + 2,
                line,
                toks: seq![tok(ks.1, src, pos, pos + 2, LitV::Absent, line)],
                diags: seq![],
            }
        } else {
            StepV {
                next: pos + 1,
                line,
                toks: seq![tok(ks.0, src, pos, pos + 1, LitV::Absent, line)],
                diags: seq![],
            }
        }
    } else if c == '/' {
        if pos + 1 < src.len() && src[pos + 1] == '/' {
            StepV { next: line_end(src, pos + 2), line, toks: seq![], diags: seq![] }
        } else {
            StepV {
                next: pos + 1,
                line,
                toks: seq![tok(TokenType::Slash, src, pos, pos + 1, LitV::Absent, line)],
                diags: seq![],
            }
        }
    } else if c == '"' {
        let q = str_end(src, pos + 1);
        let line2 = line + newlines(src, pos + 1, q);
        if q == src.len() {
            StepV {
                next: q,
                line: line2,
                toks: seq![],
                diags: seq![dg(line2, DiagKind::UnterminatedString)],
            }
        } else {
            StepV {
                next: q + 1,
                line: line2,
                toks: seq![
                    tok(
                        TokenType::String,
                        src,
                        pos,
                        q + 1,
                        LitV::Str(src.subrange(pos + 1, q)),
                        line2,
                    ),
                ],
                diags: seq![],
            }
        }
    } else if c == ' ' || c == '\r' || c == '\t' {
        StepV { next: pos + 1, line, toks: seq![], diags: seq![] }
    } else if c == '\n' {
        StepV { next: pos + 1, line: line + 1, toks: seq![], diags: seq![] }
    } else if is_digit(c) {
        let end = num_end(src, pos);
        if num_lit_fits(src, pos) {
            StepV {
                next: end,
                line,
                toks: seq![
                    tok(
                        TokenType::Number,
                        src,
                        pos,
                        end,
                        LitV::Num { n: num_lit_n(src, pos), d: num_lit_d(src, pos) },
                        line,
                    ),
                ],
                diags: seq![],
            }
        } else {
            StepV { next: end, line, toks: seq![], diags: seq![dg(line, DiagKind::NumberTooLarge)] }
        }
    } else {
        StepV { next: pos + 1, line, toks: seq![], diags: seq![dg(line, DiagKind::UnexpectedCharacter)] }
    }
}

/// The tokens and diagnostics of a scan.
pub struct ScanV {
    pub toks: Seq<TokenV>,
    pub diags: Seq<DiagV>,
}

/// The scan of the source from `pos` on, with the line counter at `line`:
/// steps until the end of input, then the end-of-input token.
pub open spec fn scan_from(src: Seq<char>, pos: int, line: int) -> ScanV
    decreases src.len() - pos,
{
    if pos < 0 || pos >= src.len() {
        ScanV { toks: seq![eof_tok(line)], diags: seq![] }
    } else {
        let st = scan_step(src, pos, line);
        let np = if st.next <= pos {
            pos + 1
        } else if st.next > src.len() {
            src.len() as int
        } else {
            st.next
        };
        let rest = scan_from(src, np, st.line);
        ScanV { toks: st.toks + rest.toks, diags: st.diags + rest.diags }
    }
}

/// The scan of a whole source text, starting on line one.
pub open spec fn scan_spec(src: Seq<char>) -> ScanV {
    scan_from(src, 0, 1)
}

/// A digit run ends within the source.
proof fn lemma_digits_end_bounds(src: Seq<char>, pos: int)
    requires
        0 <= pos <= src.len(),
    ensures
        pos <= digits_end(src, pos) <= src.len(),
    decreases src.len() - pos,
{
    if pos < src.len() && is_digit(src[pos]) {
        lemma_digits_end_bounds(src, pos + 1);
    }
}

/// The scan for a closing quote ends within the source, and at a quote where
/// it finds one.
proof fn lemma_str_end_bounds(src: Seq<char>, pos: int)
    requires
        0 <= pos <= src.len(),
    ensures
        pos <= str_end(src, pos) <= src.len(),
        str_end(src, pos) < src.len() ==> src[str_end(src, pos)] == '"',
    decreases src.len() - pos,
{
    if pos < src.len() && src[pos] != '"' {
        lemma_str_end_bounds(src, pos + 1);
    }
}

/// The scan for a line end ends within the source.
proof fn lemma_line_end_bounds(src: Seq<char>, pos: int)
    requires
        0 <= pos <= src.len(),
    ensures
        pos <= line_end(src, pos) <= src.len(),
    decreases src.len() - pos,
{
    if pos < src.len() && src[pos] != '\n' {
        lemma_line_end_bounds(src, pos + 1);
    }
}

/// Every character of a digit run is a digit.
proof fn lemma_digits_end_digits(src: Seq<char>, pos: int)
    requires
        0 <= pos <= src.len(),
    ensures
        forall|t: int| pos <= t < digits_end(src, pos) ==> is_digit(#[trigger] src[t]),
        pos <= digits_end(src, pos) <= src.len(),
    decreases src.len() - pos,
{
    if pos < src.len() && is_digit(src[pos]) {
        lemma_digits_end_digits(src, pos + 1);
    }
}

/// Powers of ten are positive.
proof fn lemma_pow10_pos(k: int)
    ensures
        pow10(k) >= 1,
    decreases k,
{
    if k > 0 {
        lemma_pow10_pos(k - 1);
    }
}

/// A run of digits has a non-negative value.
proof fn lemma_digits_val_nonneg(src: Seq<char>, i: int, j: int)
    requires
        forall|t: int| i <= t < j ==> is_digit(#[trigger] src[t]),
    ensures
        digits_val(src, i, j) >= 0,
    decreases j - i,
{
    if i < j {
        lemma_digits_val_nonneg(src, i, j - 1);
    }
}

/// A digit run bounded on the right by the end of input or a non-digit ends
/// exactly there.
proof fn lemma_digits_end_run(src: Seq<char>, i: int, j: int)
    requires
        0 <= i <= j <= src.len(),
        forall|t: int| i <= t < j ==> is_digit(#[trigger] src[t]),
        j == src.len() || !is_digit(src[j]),
    ensures
        digits_end(src, i) == j,
    decreases j - i,
{
    if i < j {
        lemma_digits_end_run(src, i + 1, j);
    }
}

/// A range without newline characters counts no newlines.
proof fn lemma_newlines_zero(src: Seq<char>, i: int, j: int)
    requires
        forall|t: int| i <= t < j ==> #[trigger] src[t] != '\n',
    ensures
        newlines(src, i, j) == 0,
    decreases j - i,
{
    if i < j {
        lemma_newlines_zero(src, i, j - 1);
    }
}

/// Newline counts of adjacent ranges add up.
proof fn lemma_newlines_split(src: Seq<char>, i: int, j: int, k: int)
    requires
        i <= j <= k,
    ensures
        newlines(src, i, k) == newlines(src, i, j) + newlines(src, j, k),
    decreases k - j,
{
    if j < k {
        lemma_newlines_split(src, i, j, k - 1);
    }
}

/// No character before the line end is a newline.
proof fn lemma_line_end_no_nl(src: Seq<char>, pos: int)
    requires
        0 <= pos <= src.len(),
    ensures
        forall|t: int| pos <= t < line_end(src, pos) ==> #[trigger] src[t] != '\n',
        pos <= line_end(src, pos) <= src.len(),
    decreases src.len() - pos,
{
    if pos < src.len() && src[pos] != '\n' {
        lemma_line_end_no_nl(src, pos + 1);
    }
}

/// A valid numeric literal: a digit run, optionally followed by a point and
/// another digit run.
pub open spec fn is_num_lit(s: Seq<char>) -> bool {
    ||| (s.len() > 0 && forall|i: int| 0 <= i < s.len() ==> is_digit(#[trigger] s[i]))
    ||| (exists|k: int|
        0 < k < s.len() - 1 && s[k] == '.' && (forall|i: int|
            0 <= i < k ==> is_digit(#[trigger] s[i])) && (forall|i: int|
            k < i < s.len() ==> is_digit(#[trigger] s[i])))
}

/// Scanning a source that is exactly one valid numeric literal (whose exact
/// value fits the runtime representation) yields one number token whose
/// lexeme is the whole source, then the end-of-input token: re-slicing the
/// token's lexeme returns the original text.
pub proof fn lemma_num_lexeme_round_trip(s: Seq<char>)
    requires
        is_num_lit(s),
        num_lit_fits(s, 0),
    ensures
        scan_spec(s).toks.len() == 2,
        scan_spec(s).toks[0].kind == TokenType::Number,
        scan_spec(s).toks[0].lexeme == s,
        scan_spec(s).toks[1].kind == TokenType::EOF,
        scan_spec(s).diags.len() == 0,
{
    if s.len() > 0 && forall|i: int| 0 <= i < s.len() ==> is_digit(#[trigger] s[i]) {
        lemma_digits_end_run(s, 0, s.len() as int);
        assert(num_end(s, 0) == s.len());
    } else {
        let k = choose|k: int|
            0 < k < s.len() - 1 && s[k] == '.' && (forall|i: int|
                0 <= i < k ==> is_digit(#[trigger] s[i])) && (forall|i: int|
                k < i < s.len() ==> is_digit(#[trigger] s[i]));
        assert(!is_digit('.')) by {
            assert(('.' as int) < ('0' as int));
        }
        lemma_digits_end_run(s, 0, k);
        lemma_digits_end_run(s, k + 1, s.len() as int);
        assert(num_end(s, 0) == s.len());
    }
    let st = scan_step(s, 0, 1);
    assert(st.toks[0].lexeme =~= s);
    assert(scan_from(s, s.len() as int, 1).toks =~= seq![eof_tok(1)]);
    assert(scan_spec(s).toks == st.toks + scan_from(s, s.len() as int, 1).toks);
}

/// The line reported for the end-of-input token counts one for the first
/// line and one for every newline consumed before it — including newlines
/// embedded in string literals, terminated or not, so every token scanned
/// after such a literal carries the incremented counter.
pub proof fn lemma_line_count(src: Seq<char>, pos: int, line: int)
    requires
        0 <= pos <= src.len(),
    ensures
        scan_from(src, pos, line).toks.len() >= 1,
        scan_from(src, pos, line).toks.last().line == line + newlines(src, pos, src.len() as int),
    decreases src.len() - pos,
{
    if pos >= src.len() {
        assert(newlines(src, pos, src.len() as int) == 0);
    } else {
        let st = scan_step(src, pos, line);
        let np = if st.next <= pos {
            pos + 1
        } else if st.next > src.len() {
            src.len() as int
        } else {
            st.next
        };
        let c = src[pos];
        // each branch: the line advances by exactly the newlines consumed
        if single_kind(c) is Some || pair_kinds(c) is Some || c == ' ' || c == '\r' || c == '\t' {
            lemma_newlines_zero(src, pos, np);
        } else if c == '/' {
            if pos + 1 < src.len() && src[pos + 1] == '/' {
                lemma_line_end_no_nl(src, pos + 2);
                lemma_newlines_zero(src, pos, np);
            } else {
                lemma_newlines_zero(src, pos, np);
            }
        } else if c == '"' {
            let q = str_end(src, pos + 1);
            lemma_str_end_bounds(src, pos + 1);
            assert(newlines(src, pos, pos) == 0);
            assert(newlines(src, pos, pos + 1) == 0);
            if q == src.len() {
                lemma_newlines_split(src, pos, pos + 1, q);
            } else {
                lemma_newlines_split(src, pos, pos + 1, q);
                lemma_newlines_split(src, pos, q, q + 1);
                assert(newlines(src, q, q) == 0);
                assert(newlines(src, q, q + 1) == 0);
            }
        } else if c == '\n' {
            assert(newlines(src, pos, pos) == 0);
            assert(newlines(src, pos, pos + 1) == 1);
        } else if is_digit(c) {
            lemma_digits_end_digits(src, pos);
            let ie = digits_end(src, pos);
            if ie + 1 < src.len() && src[ie] == '.' && is_digit(src[ie + 1]) {
                lemma_digits_end_digits(src, ie + 1);
                assert forall|t: int| pos <= t < np implies #[trigger] src[t] != '\n' by {
                    assert(('\n' as int) < ('.' as int));
                    assert(('\n' as int) < ('0' as int));
                }
                lemma_newlines_zero(src, pos, np);
            } else {
                assert forall|t: int| pos <= t < np implies #[trigger] src[t] != '\n' by {
                    assert(('\n' as int) < ('0' as int));
                }
                lemma_newlines_zero(src, pos, np);
            }
        } else {
            lemma_newlines_zero(src, pos, np);
        }
        assert(st.line == line + newlines(src, pos, np));
        lemma_line_count(src, np, st.line);
        lemma_newlines_split(src, pos, np, src.len() as int);
        let rest = scan_from(src, np, st.line);
        assert((st.toks + rest.toks).last() == rest.toks.last());
    }
}

/// Whether a character is a decimal digit.
fn is_digit_exec(c: char) -> (r: bool)
    ensures
        r == is_digit(c),
{
    '0' <= c && c <= '9'
}

/// The token kind of a character that scans alone, where it has one.
fn single_kind_exec(c: char) -> (r: Option<TokenType>)
    ensures
        r == single_kind(c),
{
    if c == '(' {
        Some(TokenType::LeftParen)
    } else if c == ')' {
        Some(TokenType::RightParen)
    } else if c == '{' {
        Some(TokenType::LeftBrace)
    } else if c == '}' {
        Some(TokenType::RightBrace)
    } else if c == ',' {
        Some(TokenType::Comma)
    } else if c == '.' {
        Some(TokenType::Dot)
    } else if c == '-' {
        Some(TokenType::Minus)
    } else if c == '+' {
        Some(TokenType::Plus)
    } else if c == ';' {
        Some(TokenType::Semicolon)
    } else if c == '*' {
        Some(TokenType::Star)
    } else if c == '^' {
        Some(TokenType::Caret)
    } else {
        None
    }
}

/// The token kinds of the four one-or-two-character operators.
fn pair_kinds_exec(c: char) -> (r: Option<(TokenType, TokenType)>)
    ensures
        r == pair_kinds(c),
{
    if c == '!' {
        Some((TokenType::Bang, TokenType::BangEqual))
    } else if c == '=' {
        Some((TokenType::Equal, TokenType::EqualEqual))
    } else if c == '<' {
        Some((TokenType::Less, TokenType::LessEqual))
    } else if c == '>' {
        Some((TokenType::Greater, TokenType::GreaterEqual))
    } else {
        None
    }
}

/// The scanner: source text in, token sequence out, with start/current
/// cursors and a line counter.
pub struct Scanner {
    source: String,
    len: usize,
    diags: Vec<Diag>,
    current: usize,
    line: usize,
}

impl Scanner {
    /// The source text under scan.
    pub closed spec fn src(&self) -> Seq<char> {
        self.source@
    }

    /// The cursor: how many characters are consumed.
    pub closed spec fn pos(&self) -> int {
        self.current as int
    }

    /// The current line counter.
    pub closed spec fn line_no(&self) -> int {
        self.line as int
    }

    /// The diagnostics reported so far.
    pub closed spec fn diag_seq(&self) -> Seq<DiagV> {
        diags_view(self.diags@)
    }

    /// The scanner's internal consistency.
    pub closed spec fn inv(&self) -> bool {
        &&& self.current <= self.source@.len()
        &&& self.len == self.source@.len()
        &&& self.source@.len() < usize::MAX
        &&& self.line as int <= 1 + self.current as int
        &&& self.line >= 1
    }

    /// A scanner that has not started yet.
    pub closed spec fn fresh(&self) -> bool {
        self.current == 0 && self.line == 1 && self.diags@.len() == 0
    }

    /// A scanner over the given source text, at the start, on line one.
    pub fn new(source: String) -> (r: Scanner)
        requires
            source@.len() < usize::MAX,
        ensures
            r.inv(),
            r.fresh(),
            r.src() == source@,
    {
        let len = source.as_str().unicode_len();
        let r = Scanner { source, len, diags: Vec::new(), current: 0, line: 1 };
        proof {
            assert(r.diag_seq() =~= Seq::<DiagV>::empty());
        }
        r
    }

    /// The diagnostics reported so far, oldest first.
    pub fn diagnostics(&self) -> (r: &Vec<Diag>)
        ensures
            diags_view(r@) == self.diag_seq(),
    {
        &self.diags
    }

    /// The character under the cursor, or a NUL sentinel at the end.
    fn peek(&self) -> (c: char)
        requires
            self.inv(),
        ensures
            c == (if self.pos() < self.src().len() {
                self.src()[self.pos()]
            } else {
                '\0'
            }),
    {
        if self.current >= self.len {
            '\0'
        } else {
            self.source.as_str().get_char(self.current)
        }
    }

    /// The character just past the cursor, or a NUL sentinel at the end.
    fn peek_next(&self) -> (c: char)
        requires
            self.inv(),
        ensures
            c == (if self.pos() + 1 < self.src().len() {
                self.src()[self.pos() + 1]
            } else {
                '\0'
            }),
    {
        if self.current >= self.len || self.current + 1 >= self.len {
            '\0'
        } else {
            self.source.as_str().get_char(self.current + 1)
        }
    }

    /// Whether the character under the cursor is the expected one.
    fn same(&self, expected: char) -> (r: bool)
        requires
            self.inv(),
        ensures
            r == (self.pos() < self.src().len() && self.src()[self.pos()] == expected),
    {
        self.current < self.len && self.source.as_str().get_char(self.current) == expected
    }

    /// Appends a token over `src[start .. current)` with the current line.
    fn add_token(&self, tokens: &mut Vec<Token>, kind: TokenType, start: usize, lit: Literal)
        requires
            self.inv(),
            start <= self.current,
        ensures
            toks_view(final(tokens)@) == toks_view(old(tokens)@) + seq![
                TokenV {
                    kind,
                    lexeme: self.src().subrange(start as int, self.pos()),
                    literal: lit@,
                    line: self.line_no(),
                },
            ],
    {
        let text = self.source.as_str().substring_char(start, self.current).to_string();
        let t = Token::new(kind, text, lit, self.line);
        tokens.push(t);
        proof {
            assert(toks_view(tokens@) =~= toks_view(old(tokens)@) + seq![
                TokenV {
                    kind,
                    lexeme: self.src().subrange(start as int, self.pos()),
                    literal: lit@,
                    line: self.line_no(),
                },
            ]);
        }
    }

    /// Scans the rest of a numeric literal whose first digit is already
    /// consumed: moves the cursor past the digits, and past a point and more
    /// digits where a fractional part follows, then appends the token — or a
    /// diagnostic where the literal's exact value does not fit the runtime
    /// representation.
    fn add_num_token(&mut self, tokens: &mut Vec<Token>, start: usize)
        requires
            old(self).inv(),
            (start as int) < old(self).src().len(),
            old(self).pos() == start as int + 1,
            is_digit(old(self).src()[start as int]),
        ensures
            final(self).inv(),
            final(self).src() == old(self).src(),
            final(self).len == old(self).len,
            final(self).line_no() == old(self).line_no(),
            final(self).pos() == num_end(old(self).src(), start as int),
            old(self).pos() <= final(self).pos() <= old(self).src().len(),
            toks_view(final(tokens)@) == toks_view(old(tokens)@) + (if num_lit_fits(
                old(self).src(),
                start as int,
            ) {
                seq![
                    tok(
                        TokenType::Number,
                        old(self).src(),
                        start as int,
                        num_end(old(self).src(), start as int),
                        LitV::Num {
                            n: num_lit_n(old(self).src(), start as int),
                            d: num_lit_d(old(self).src(), start as int),
                        },
                        old(self).line_no(),
                    ),
                ]
            } else {
                Seq::<TokenV>::empty()
            }),
            final(self).diag_seq() == old(self).diag_seq() + (if num_lit_fits(
                old(self).src(),
                start as int,
            ) {
                Seq::<DiagV>::empty()
            } else {
                seq![dg(old(self).line_no(), DiagKind::NumberTooLarge)]
            }),
    {
        let ghost src = self.src();
        let ghost line0 = self.line_no();
        let ghost diags0 = self.diag_seq();
        // consume the integer digits
        while self.current < self.len && is_digit_exec(self.peek())
            invariant
                self.inv(),
                self.src() == src,
                self.line_no() == line0,
                self.diag_seq() == diags0,
                start as int + 1 <= self.pos() <= src.len(),
                digits_end(src, start as int) == digits_end(src, self.pos()),
            decreases src.len() - self.pos(),
        {
            self.current = self.current + 1;
        }
        let ie = self.current;
        proof {
            assert(ie as int == digits_end(src, start as int));
            lemma_digits_end_digits(src, start as int);
        }
        // consume a fractional part where one follows
        if self.current + 1 < self.len && self.peek() == '.' && is_digit_exec(self.peek_next()) {
            self.current = self.current + 1;
            while self.current < self.len && is_digit_exec(self.peek())
                invariant
                    self.inv(),
                    self.src() == src,
                    self.line_no() == line0,
                    self.diag_seq() == diags0,
                    ie as int + 1 <= self.pos() <= src.len(),
                    digits_end(src, ie as int + 1) == digits_end(src, self.pos()),
                decreases src.len() - self.pos(),
            {
                self.current = self.current + 1;
            }
            proof {
                lemma_digits_end_digits(src, ie as int + 1);
            }
        }
        let end = self.current;
        proof {
            assert(end as int == num_end(src, start as int));
        }
        // the exact value of the integer digits
        let mut n: u128 = 0;
        let mut ok: bool = true;
        let mut i = start;
        while i < ie
            invariant
                self.inv(),
                self.src() == src,
                start <= i <= ie,
                ie as int == digits_end(src, start as int) <= src.len(),
                forall|t: int| start as int <= t < ie as int ==> is_digit(#[trigger] src[t]),
                ok ==> n as int == digits_val(src, start as int, i as int) && n <= i64::MAX
                    as u128,
                !ok ==> digits_val(src, start as int, i as int) > i64::MAX,
            decreases ie - i,
        {
            let ch = self.source.as_str().get_char(i);
            let dig: u128 = (ch as u32 - '0' as u32) as u128;
            proof {
                lemma_digits_val_nonneg(src, start as int, i as int);
            }
            if ok {
                let n2 = n * 10 + dig;
                if n2 > i64::MAX as u128 {
                    ok = false;
                } else {
                    n = n2;
                }
            }
            i = i + 1;
        }
        // the exact value and scale of the fraction digits
        let mut d: u32 = 1;
        let mut dok: bool = true;
        if end > ie {
            let mut j = ie + 1;
            proof {
                lemma_digits_val_nonneg(src, start as int, ie as int);
            }
            while j < end
                invariant
                    self.inv(),
                    self.src() == src,
                    ie as int + 1 <= j as int <= end as int,
                    end as int == digits_end(src, ie as int + 1) <= src.len(),
                    ie as int == digits_end(src, start as int),
                    forall|t: int| start as int <= t < ie as int ==> is_digit(#[trigger] src[t]),
                    forall|t: int|
                        ie as int + 1 <= t < end as int ==> is_digit(#[trigger] src[t]),
                    ok ==> n as int == digits_val(src, start as int, ie as int) * pow10(
                        j as int - ie as int - 1,
                    ) + digits_val(src, ie as int + 1, j as int) && n <= i64::MAX as u128,
                    !ok ==> digits_val(src, start as int, ie as int) * pow10(
                        j as int - ie as int - 1,
                    ) + digits_val(src, ie as int + 1, j as int) > i64::MAX,
                    dok ==> d as int == pow10(j as int - ie as int - 1) && d <= u32::MAX,
                    !dok ==> pow10(j as int - ie as int - 1) > u32::MAX,
                decreases end - j,
            {
                let ch = self.source.as_str().get_char(j);
                let dig: u128 = (ch as u32 - '0' as u32) as u128;
                let ghost a = digits_val(src, start as int, ie as int);
                let ghost p = pow10(j as int - ie as int - 1);
                let ghost b = digits_val(src, ie as int + 1, j as int);
                proof {
                    lemma_digits_val_nonneg(src, start as int, ie as int);
                    lemma_digits_val_nonneg(src, ie as int + 1, j as int);
                    lemma_pow10_pos(j as int - ie as int - 1);
                    lemma_pow10_pos(j as int + 1 - ie as int - 1);
                    assert((a * p) * 10 == a * (p * 10)) by (nonlinear_arith);
                    assert(a * p >= 0) by (nonlinear_arith)
                        requires
                            a >= 0,
                            p >= 0,
                    ;
                }
                if ok {
                    let n2 = n * 10 + dig;
                    if n2 > i64::MAX as u128 {
                        ok = false;
                    } else {
                        n = n2;
                    }
                }
                if dok {
                    if d > 429496729 {
                        dok = false;
                    } else {
                        d = d * 10;
                    }
                }
                j = j + 1;
            }
        }
        proof {
            if end == ie {
                assert(num_lit_n(src, start as int) == digits_val(src, start as int, ie as int));
                assert(num_lit_d(src, start as int) == pow10(0));
            } else {
                assert(num_lit_n(src, start as int) == digits_val(src, start as int, ie as int)
                    * pow10(end as int - ie as int - 1) + digits_val(
                    src,
                    ie as int + 1,
                    end as int,
                ));
                assert(num_lit_d(src, start as int) == pow10(end as int - ie as int - 1));
            }
            lemma_digits_val_nonneg(src, start as int, ie as int);
        }
        if ok && dok {
            let q = Num { n: n as i64, d };
            self.add_token(tokens, TokenType::Number, start, Literal::Num(q));
            proof {
                assert(num_lit_fits(src, start as int));
                assert(toks_view(tokens@) =~= toks_view(old(tokens)@) + seq![
                    tok(
                        TokenType::Number,
                        src,
                        start as int,
                        num_end(src, start as int),
                        LitV::Num {
                            n: num_lit_n(src, start as int),
                            d: num_lit_d(src, start as int),
                        },
                        line0,
                    ),
                ]);
                assert(self.diag_seq() =~= diags0 + Seq::<DiagV>::empty());
            }
        } else {
            self.add_diag(DiagKind::NumberTooLarge);
            proof {
                assert(!num_lit_fits(src, start as int));
                assert(toks_view(tokens@) =~= toks_view(old(tokens)@) + Seq::<TokenV>::empty());
            }
        }
    }

    /// Scans one lexeme at the cursor: consumes at least one character and
    /// produces exactly the token or diagnostic of one specification step.
    fn scan_token(&mut self, tokens: &mut Vec<Token>)
        requires
            old(self).inv(),
            old(self).pos() < old(self).src().len(),
        ensures
            final(self).inv(),
            final(self).src() == old(self).src(),
            final(self).len == old(self).len,
            ({
                let st = scan_step(old(self).src(), old(self).pos(), old(self).line_no());
                &&& final(self).pos() == st.next
                &&& old(self).pos() < final(self).pos() <= old(self).src().len()
                &&& final(self).line_no() == st.line
                &&& toks_view(final(tokens)@) == toks_view(old(tokens)@) + st.toks
                &&& final(self).diag_seq() == old(self).diag_seq() + st.diags
            }),
    {
        let ghost src = self.src();
        let ghost pos0 = self.pos();
        let ghost line0 = self.line_no();
        let ghost diags0 = self.diag_seq();
        let start = self.current;
        let c = self.source.as_str().get_char(self.current);
        self.current = self.current + 1;
        if let Some(kind) = single_kind_exec(c) {
            self.add_token(tokens, kind, start, Literal::Absent);
            proof {
                assert(toks_view(tokens@) =~= toks_view(old(tokens)@) + scan_step(
                    src,
                    pos0,
                    line0,
                ).toks);
                assert(self.diag_seq() =~= diags0 + scan_step(src, pos0, line0).diags);
            }
        } else if let Some(ks) = pair_kinds_exec(c) {
            if self.same('=') {
                self.current = self.current + 1;
                self.add_token(tokens, ks.1, start, Literal::Absent);
            } else {
                self.add_token(tokens, ks.0, start, Literal::Absent);
            }
            proof {
                assert(toks_view(tokens@) =~= toks_view(old(tokens)@) + scan_step(
                    src,
                    pos0,
                    line0,
                ).toks);
                assert(self.diag_seq() =~= diags0 + scan_step(src, pos0, line0).diags);
            }
        } else if c == '/' {
            if self.same('/') {
                proof {
                    assert(line_end(src, pos0 + 1) == line_end(src, pos0 + 2));
                    lemma_line_end_bounds(src, pos0 + 1);
                }
                while self.peek() != '\n' && self.current < self.len
                    invariant
                        self.inv(),
                        self.src() == src,
                        self.line_no() == line0,
                        self.diag_seq() == diags0,
                        pos0 < self.pos() <= src.len(),
                        line_end(src, pos0 + 2) == line_end(src, self.pos()),
                    decreases src.len() - self.pos(),
                {
                    self.current = self.current + 1;
                }
                proof {
                    assert(self.pos() == line_end(src, pos0 + 2));
                    assert(toks_view(tokens@) =~= toks_view(old(tokens)@) + scan_step(
                        src,
                        pos0,
                        line0,
                    ).toks);
                    assert(self.diag_seq() =~= diags0 + scan_step(src, pos0, line0).diags);
                }
            } else {
                self.add_token(tokens, TokenType::Slash, start, Literal::Absent);
                proof {
                    assert(toks_view(tokens@) =~= toks_view(old(tokens)@) + scan_step(
                        src,
                        pos0,
                        line0,
                    ).toks);
                    assert(self.diag_seq() =~= diags0 + scan_step(src, pos0, line0).diags);
                }
            }
        } else if c == '"' {
            proof {
                lemma_str_end_bounds(src, pos0 + 1);
            }
            while self.peek() != '"' && self.current < self.len
                invariant
                    self.inv(),
                    self.src() == src,
                    self.diag_seq() == diags0,
                    pos0 + 1 <= self.pos() <= src.len(),
                    str_end(src, pos0 + 1) == str_end(src, self.pos()),
                    self.line_no() == line0 + newlines(src, pos0 + 1, self.pos()),
                decreases src.len() - self.pos(),
            {
                if self.peek() == '\n' {
                    self.line = self.line + 1;
                }
                self.current = self.current + 1;
            }
            proof {
                assert(self.pos() == str_end(src, pos0 + 1));
                assert(self.line_no() == line0 + newlines(src, pos0 + 1, str_end(src, pos0 + 1)));
            }
            if self.current >= self.len {
                self.add_diag(DiagKind::UnterminatedString);
                proof {
                    assert(toks_view(tokens@) =~= toks_view(old(tokens)@) + scan_step(
                        src,
                        pos0,
                        line0,
                    ).toks);
                    assert(self.diag_seq() =~= diags0 + scan_step(src, pos0, line0).diags);
                }
            } else {
                let q = self.current;
                self.current = self.current + 1;
                let inner = self.source.as_str().substring_char(start + 1, q).to_string();
                self.add_token(tokens, TokenType::String, start, Literal::Str(inner));
                proof {
                    assert(toks_view(tokens@) =~= toks_view(old(tokens)@) + scan_step(
                        src,
                        pos0,
                        line0,
                    ).toks);
                    assert(self.diag_seq() =~= diags0 + scan_step(src, pos0, line0).diags);
                }
            }
        } else if c == ' ' || c == '\r' || c == '\t' {
            proof {
                assert(toks_view(tokens@) =~= toks_view(old(tokens)@) + scan_step(
                    src,
                    pos0,
                    line0,
                ).toks);
                assert(self.diag_seq() =~= diags0 + scan_step(src, pos0, line0).diags);
            }
        } else if c == '\n' {
            self.line = self.line + 1;
            proof {
                assert(toks_view(tokens@) =~= toks_view(old(tokens)@) + scan_step(
                    src,
                    pos0,
                    line0,
                ).toks);
                assert(self.diag_seq() =~= diags0 + scan_step(src, pos0, line0).diags);
            }
        } else if is_digit_exec(c) {
            self.add_num_token(tokens, start);
            proof {
                lemma_digits_end_digits(src, pos0);
                assert(toks_view(tokens@) =~= toks_view(old(tokens)@) + scan_step(
                    src,
                    pos0,
                    line0,
                ).toks);
                assert(self.diag_seq() =~= diags0 + scan_step(src, pos0, line0).diags);
            }
        } else {
            self.add_diag(DiagKind::UnexpectedCharacter);
            proof {
                assert(toks_view(tokens@) =~= toks_view(old(tokens)@) + scan_step(
                    src,
                    pos0,
                    line0,
                ).toks);
                assert(self.diag_seq() =~= diags0 + scan_step(src, pos0, line0).diags);
            }
        }
    }

    /// Scans the whole source: the token sequence of the specification,
    /// terminated by the end-of-input token, with the diagnostics of the
    /// specification reported along the way.
    pub fn scan_tokens(&mut self) -> (r: Vec<Token>)
        requires
            old(self).inv(),
            old(self).fresh(),
        ensures
            toks_view(r@) == scan_spec(old(self).src()).toks,
            final(self).diag_seq() == scan_spec(old(self).src()).diags,
            final(self).src() == old(self).src(),
    {
        let ghost src = self.src();
        let mut tokens: Vec<Token> = Vec::new();
        proof {
            assert(toks_view(tokens@) =~= Seq::<TokenV>::empty());
            assert(Seq::<TokenV>::empty() + scan_from(src, 0, 1).toks =~= scan_from(
                src,
                0,
                1,
            ).toks);
            assert(self.diag_seq() =~= Seq::<DiagV>::empty());
            assert(Seq::<DiagV>::empty() + scan_from(src, 0, 1).diags =~= scan_from(
                src,
                0,
                1,
            ).diags);
        }
        while self.current < self.len
            invariant
                self.inv(),
                self.src() == src,
                scan_from(src, 0, 1).toks == toks_view(tokens@) + scan_from(
                    src,
                    self.pos(),
                    self.line_no(),
                ).toks,
                scan_from(src, 0, 1).diags == self.diag_seq() + scan_from(
                    src,
                    self.pos(),
                    self.line_no(),
                ).diags,
            decreases src.len() - self.pos(),
        {
            let ghost p = self.pos();
            let ghost l = self.line_no();
            let ghost tv = toks_view(tokens@);
            let ghost dv = self.diag_seq();
            self.scan_token(&mut tokens);
            proof {
                let st = scan_step(src, p, l);
                assert(scan_from(src, p, l).toks == st.toks + scan_from(
                    src,
                    self.pos(),
                    self.line_no(),
                ).toks);
                assert(tv + (st.toks + scan_from(src, self.pos(), self.line_no()).toks) =~= (tv
                    + st.toks) + scan_from(src, self.pos(), self.line_no()).toks);
                assert(dv + (st.diags + scan_from(src, self.pos(), self.line_no()).diags) =~= (dv
                    + st.diags) + scan_from(src, self.pos(), self.line_no()).diags);
            }
        }
        let t = Token::new(TokenType::EOF, String::new(), Literal::Absent, self.line);
        tokens.push(t);
        proof {
            assert(scan_from(src, self.pos(), self.line_no()).toks =~= seq![
                eof_tok(self.line_no()),
            ]);
            assert(toks_view(tokens@) =~= scan_from(src, 0, 1).toks);
            assert(self.diag_seq() + scan_from(src, self.pos(), self.line_no()).diags
                =~= self.diag_seq());
        }
        tokens
    }

    /// Appends a diagnostic with the current line.
    fn add_diag(&mut self, kind: DiagKind)
        requires
            old(self).inv(),
        ensures
            final(self).src() == old(self).src(),
            final(self).pos() == old(self).pos(),
            final(self).line_no() == old(self).line_no(),
            final(self).len == old(self).len,
            final(self).diag_seq() == old(self).diag_seq() + seq![dg(old(self).line_no(), kind)],
            final(self).inv(),
    {
        let d = Diag::new(self.line, kind);
        self.diags.push(d);
        proof {
            assert(self.diag_seq() =~= old(self).diag_seq() + seq![dg(old(self).line_no(), kind)]);
        }
    }
}

} // verus!
