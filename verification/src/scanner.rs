//! The scanner: consumes a character sequence and produces the ordered
//! sequence of lexical items in it, or fails at the first lexical error.
//!
//! The intended output is pinned down by the specification functions
//! `spec_step` (what one classification step consumes and emits) and
//! `spec_scan` (the whole run), and every scanning function is proved to
//! agree with them.

use crate::token::{Item, ItemView, NumberValue, Token, TokenView};
use vstd::prelude::*;

verus! {

/// A lexical error. Every kind is terminal to the current scan.
#[derive(Debug, Clone, Copy, PartialEq, Eq, Structural)]
pub enum ScanError {
    /// A character no lexical rule matches, and the line it stands on.
    UnexpectedCharacter { character: char, line: usize },
    /// A string literal was opened but never closed; the line is the one on
    /// which the input ended.
    UnterminatedString { line: usize },
    /// A numeric literal whose digits exceed the range of the mantissa.
    NumberParseFailure,
}

// ---------------------------------------------------------------------------
// Character classes.
// ---------------------------------------------------------------------------

/// An ASCII decimal digit.
pub open spec fn is_digit_char(c: char) -> bool {
    '0' as int <= c as int && c as int <= '9' as int
}

/// An ASCII letter or underscore.
pub open spec fn is_alpha_char(c: char) -> bool {
    ||| 'a' as int <= c as int && c as int <= 'z' as int
    ||| 'A' as int <= c as int && c as int <= 'Z' as int
    ||| c == '_'
}

/// An ASCII letter, digit or underscore.
pub open spec fn is_alnum_char(c: char) -> bool {
    is_alpha_char(c) || is_digit_char(c)
}

/// The ten single-character punctuation tokens that are emitted directly.
/// The slash is not among them: it may open a comment and is classified by
/// one character of lookahead.
pub open spec fn is_single_punct(c: char) -> bool {
    ||| c == '(' ||| c == ')' ||| c == '{' ||| c == '}' ||| c == ','
    ||| c == '.' ||| c == '-' ||| c == '+' ||| c == ';' ||| c == '*'
}

/// The token for a single-character punctuation mark.
pub open spec fn punct_token(c: char) -> TokenView
    recommends
        is_single_punct(c),
{
    if c == '(' {
        TokenView::LeftParen
    } else if c == ')' {
        TokenView::RightParen
    } else if c == '{' {
        TokenView::LeftBrace
    } else if c == '}' {
        TokenView::RightBrace
    } else if c == ',' {
        TokenView::Comma
    } else if c == '.' {
        TokenView::Dot
    } else if c == '-' {
        TokenView::Minus
    } else if c == '+' {
        TokenView::Plus
    } else if c == ';' {
        TokenView::SemiColon
    } else {
        TokenView::Star
    }
}

/// A character that may open a two-character operator ending in `=`.
pub open spec fn is_pair_head(c: char) -> bool {
    c == '=' || c == '!' || c == '<' || c == '>'
}

/// The one-character operator emitted when the `=` lookahead fails.
pub open spec fn single_op_token(c: char) -> TokenView
    recommends
        is_pair_head(c),
{
    if c == '=' {
        TokenView::Equal
    } else if c == '!' {
        TokenView::Bang
    } else if c == '<' {
        TokenView::Lesser
    } else {
        TokenView::Greater
    }
}

/// The two-character operator emitted when the `=` lookahead succeeds.
pub open spec fn pair_op_token(c: char) -> TokenView
    recommends
        is_pair_head(c),
{
    if c == '=' {
        TokenView::EqualEqual
    } else if c == '!' {
        TokenView::BangEqual
    } else if c == '<' {
        TokenView::LesserEqual
    } else {
        TokenView::GreaterEqual
    }
}

// ---------------------------------------------------------------------------
// Cursor movements of the scanner, as functions of the character sequence.
// ---------------------------------------------------------------------------

/// The first position at or after `i` that does not hold an ASCII digit.
pub open spec fn digit_run_end(cs: Seq<char>, i: int) -> int
    recommends
        0 <= i <= cs.len(),
    decreases cs.len() - i,
{
    if i < 0 || i >= cs.len() {
        i
    } else if is_digit_char(cs[i]) {
        digit_run_end(cs, i + 1)
    } else {
        i
    }
}

/// The first position at or after `i` that does not hold a letter, digit or
/// underscore.
pub open spec fn alnum_run_end(cs: Seq<char>, i: int) -> int
    recommends
        0 <= i <= cs.len(),
    decreases cs.len() - i,
{
    if i < 0 || i >= cs.len() {
        i
    } else if is_alnum_char(cs[i]) {
        alnum_run_end(cs, i + 1)
    } else {
        i
    }
}

/// The first position at or after `i` holding `target`, or the sequence's
/// length if there is none.
pub open spec fn find_char(cs: Seq<char>, i: int, target: char) -> int
    recommends
        0 <= i <= cs.len(),
    decreases cs.len() - i,
{
    if i < 0 || i >= cs.len() {
        cs.len() as int
    } else if cs[i] == target {
        i
    } else {
        find_char(cs, i + 1, target)
    }
}

/// How many newline characters stand in `cs[i..j]`.
pub open spec fn newline_count(cs: Seq<char>, i: int, j: int) -> int
    recommends
        0 <= i && j <= cs.len(),
    decreases j - i,
{
    if i >= j {
        0
    } else {
        (if 0 <= i < cs.len() && cs[i] == '\n' {
            1int
        } else {
            0int
        }) + newline_count(cs, i + 1, j)
    }
}

// ---------------------------------------------------------------------------
// Numeric and keyword interpretation of lexemes.
// ---------------------------------------------------------------------------

/// The numeric value of one digit character.
pub open spec fn digit_val(c: char) -> int {
    c as int - '0' as int
}

/// The value of a digit string read from `acc` onward: each digit multiplies
/// the accumulator by ten and adds itself.
pub open spec fn digits_value_app(acc: int, s: Seq<char>) -> int
    decreases s.len(),
{
    if s.len() == 0 {
        acc
    } else {
        digits_value_app(acc, s.drop_last()) * 10 + digit_val(s.last())
    }
}

/// The value of a digit string.
pub open spec fn digits_value(s: Seq<char>) -> int {
    digits_value_app(0, s)
}

/// The token an identifier lexeme denotes: a keyword for the sixteen
/// reserved words (exact, case-sensitive match), an identifier otherwise.
pub open spec fn ident_token(text: Seq<char>) -> TokenView {
    if text == "and"@ {
        TokenView::And
    } else if text == "class"@ {
        TokenView::Class
    } else if text == "else"@ {
        TokenView::Else
    } else if text == "false"@ {
        TokenView::False
    } else if text == "fun"@ {
        TokenView::Fun
    } else if text == "for"@ {
        TokenView::For
    } else if text == "if"@ {
        TokenView::If
    } else if text == "nil"@ {
        TokenView::Nil
    } else if text == "or"@ {
        TokenView::Or
    } else if text == "print"@ {
        TokenView::Print
    } else if text == "return"@ {
        TokenView::Return
    } else if text == "super"@ {
        TokenView::Super
    } else if text == "this"@ {
        TokenView::This
    } else if text == "true"@ {
        TokenView::True
    } else if text == "var"@ {
        TokenView::Var
    } else if text == "while"@ {
        TokenView::While
    } else {
        TokenView::Identifier(text)
    }
}

// ---------------------------------------------------------------------------
// One classification step, and the whole scan.
// ---------------------------------------------------------------------------

/// What one classification step does from cursor `i` on line `line`: where
/// the cursor and the line counter move, and which item is emitted, or the
/// error that ends the scan.
pub enum ScanStep {
    Fail(ScanError),
    Next { cursor: int, line: int, emit: Option<ItemView> },
}

/// One step of the scanner: classify the character at `i` and consume the
/// whole lexeme it opens.
pub open spec fn spec_step(cs: Seq<char>, i: int, line: int) -> ScanStep
    recommends
        0 <= i < cs.len(),
        1 <= line,
{
    let c = cs[i];
    if is_single_punct(c) {
        ScanStep::Next {
            cursor: i + 1,
            line,
            emit: Some(
                ItemView { token: punct_token(c), lexeme: seq![c], line: line as nat },
            ),
        }
    } else if is_pair_head(c) {
        if i + 1 < cs.len() && cs[i + 1] == '=' {
            ScanStep::Next {
                cursor: i + 2,
                line,
                emit: Some(
                    ItemView { token: pair_op_token(c), lexeme: seq![c, '='], line: line as nat },
                ),
            }
        } else {
            ScanStep::Next {
                cursor: i + 1,
                line,
                emit: Some(
                    ItemView { token: single_op_token(c), lexeme: seq![c], line: line as nat },
                ),
            }
        }
    } else if c == '/' {
        if i + 1 < cs.len() && cs[i + 1] == '/' {
            // A line comment: consume up to, but not including, the next
            // newline, and emit nothing.
            ScanStep::Next { cursor: find_char(cs, i + 2, '\n'), line, emit: None }
        } else {
            ScanStep::Next {
                cursor: i + 1,
                line,
                emit: Some(
                    ItemView { token: TokenView::Slash, lexeme: seq![c], line: line as nat },
                ),
            }
        }
    } else if c == ' ' || c == '\r' || c == '\t' {
        ScanStep::Next { cursor: i + 1, line, emit: None }
    } else if c == '\n' {
        ScanStep::Next { cursor: i + 1, line: line + 1, emit: None }
    } else if c == '"' {
        let close = find_char(cs, i + 1, '"');
        if close >= cs.len() {
            ScanStep::Fail(
                ScanError::UnterminatedString {
                    line: (line + newline_count(cs, i + 1, cs.len() as int)) as usize,
                },
            )
        } else {
            ScanStep::Next {
                cursor: close + 1,
                line: line + newline_count(cs, i + 1, close),
                emit: Some(
                    ItemView {
                        token: TokenView::StringLit(cs.subrange(i + 1, close)),
                        lexeme: cs.subrange(i, close + 1),
                        line: line as nat,
                    },
                ),
            }
        }
    } else if is_digit_char(c) {
        let int_end = digit_run_end(cs, i);
        let has_frac = int_end + 1 < cs.len() && cs[int_end] == '.' && is_digit_char(
            cs[int_end + 1],
        );
        let end = if has_frac {
            digit_run_end(cs, int_end + 1)
        } else {
            int_end
        };
        let digits = if has_frac {
            cs.subrange(i, int_end) + cs.subrange(int_end + 1, end)
        } else {
            cs.subrange(i, int_end)
        };
        if digits_value(digits) > u64::MAX {
            ScanStep::Fail(ScanError::NumberParseFailure)
        } else {
            ScanStep::Next {
                cursor: end,
                line,
                emit: Some(
                    ItemView {
                        token: TokenView::Number(
                            NumberValue {
                                mantissa: digits_value(digits) as u64,
                                scale: (if has_frac {
                                    end - int_end - 1
                                } else {
                                    0
                                }) as usize,
                            },
                        ),
                        lexeme: cs.subrange(i, end),
                        line: line as nat,
                    },
                ),
            }
        }
    } else if is_alpha_char(c) {
        let end = alnum_run_end(cs, i);
        ScanStep::Next {
            cursor: end,
            line,
            emit: Some(
                ItemView {
                    token: ident_token(cs.subrange(i, end)),
                    lexeme: cs.subrange(i, end),
                    line: line as nat,
                },
            ),
        }
    } else {
        ScanStep::Fail(ScanError::UnexpectedCharacter { character: c, line: line as usize })
    }
}

/// The whole scan from cursor `i` on line `line`: the ordered sequence of
/// items emitted until the input ends, or the first error.
pub open spec fn spec_scan(cs: Seq<char>, i: int, line: int) -> Result<Seq<ItemView>, ScanError>
    recommends
        0 <= i,
        1 <= line,
    decreases cs.len() - i,
{
    if i < 0 || i >= cs.len() {
        Ok(Seq::empty())
    } else {
        match spec_step(cs, i, line) {
            ScanStep::Fail(e) => Err(e),
            ScanStep::Next { cursor, line: next_line, emit } => {
                if i < cursor <= cs.len() {
                    match spec_scan(cs, cursor, next_line) {
                        Err(e) => Err(e),
                        Ok(rest) => Ok(
                            match emit {
                                Some(item) => seq![item] + rest,
                                None => rest,
                            },
                        ),
                    }
                } else {
                    // Unreachable: a step always advances within bounds
                    // (lemma_step_advances).
                    Ok(Seq::empty())
                }
            },
        }
    }
}

/// The views of a sequence of items.
pub open spec fn items_view(items: Seq<Item>) -> Seq<ItemView> {
    items.map_values(|it: Item| it@)
}

// ---------------------------------------------------------------------------
// Facts about the cursor-movement functions.
// ---------------------------------------------------------------------------

proof fn lemma_digit_run_end(cs: Seq<char>, i: int)
    requires
        0 <= i <= cs.len(),
    ensures
        i <= digit_run_end(cs, i) <= cs.len(),
        forall|k: int| i <= k < digit_run_end(cs, i) ==> is_digit_char(cs[k]),
        digit_run_end(cs, i) < cs.len() ==> !is_digit_char(cs[digit_run_end(cs, i)]),
    decreases cs.len() - i,
{
    if i < cs.len() && is_digit_char(cs[i]) {
        lemma_digit_run_end(cs, i + 1);
    }
}

proof fn lemma_alnum_run_end(cs: Seq<char>, i: int)
    requires
        0 <= i <= cs.len(),
    ensures
        i <= alnum_run_end(cs, i) <= cs.len(),
        forall|k: int| i <= k < alnum_run_end(cs, i) ==> is_alnum_char(cs[k]),
        alnum_run_end(cs, i) < cs.len() ==> !is_alnum_char(cs[alnum_run_end(cs, i)]),
    decreases cs.len() - i,
{
    if i < cs.len() && is_alnum_char(cs[i]) {
        lemma_alnum_run_end(cs, i + 1);
    }
}

proof fn lemma_find_char(cs: Seq<char>, i: int, target: char)
    requires
        0 <= i <= cs.len(),
    ensures
        i <= find_char(cs, i, target) <= cs.len(),
        find_char(cs, i, target) < cs.len() ==> cs[find_char(cs, i, target)] == target,
        forall|k: int| i <= k < find_char(cs, i, target) ==> cs[k] != target,
    decreases cs.len() - i,
{
    if i < cs.len() && cs[i] != target {
        lemma_find_char(cs, i + 1, target);
    }
}

proof fn lemma_newline_count_snoc(cs: Seq<char>, i: int, j: int)
    requires
        i <= j,
    ensures
        newline_count(cs, i, j + 1) == newline_count(cs, i, j) + (if 0 <= j < cs.len()
            && cs[j] == '\n' {
            1int
        } else {
            0int
        }),
    decreases j - i,
{
    if i < j {
        lemma_newline_count_snoc(cs, i + 1, j);
    } else {
        assert(newline_count(cs, j + 1, j + 1) == 0);
        assert(newline_count(cs, j, j) == 0);
    }
}

/// A classification step that does not fail moves the cursor strictly
/// forward, and never past the end of the input.
proof fn lemma_step_advances(cs: Seq<char>, i: int, line: int)
    requires
        0 <= i < cs.len(),
    ensures
        match spec_step(cs, i, line) {
            ScanStep::Next { cursor, .. } => i < cursor <= cs.len(),
            ScanStep::Fail(_) => true,
        },
{
    let c = cs[i];
    if c == '/' && i + 1 < cs.len() && cs[i + 1] == '/' {
        lemma_find_char(cs, i + 2, '\n');
    } else if c == '"' {
        lemma_find_char(cs, i + 1, '"');
    } else if is_digit_char(c) {
        lemma_digit_run_end(cs, i);
        let int_end = digit_run_end(cs, i);
        if int_end + 1 < cs.len() && cs[int_end] == '.' && is_digit_char(cs[int_end + 1]) {
            lemma_digit_run_end(cs, int_end + 1);
        }
    } else if is_alpha_char(c) && !is_single_punct(c) && !is_pair_head(c) {
        lemma_alnum_run_end(cs, i);
    }
}

// ---------------------------------------------------------------------------
// Facts about digit values.
// ---------------------------------------------------------------------------

proof fn lemma_digits_value_app_concat(acc: int, s: Seq<char>, t: Seq<char>)
    ensures
        digits_value_app(acc, s + t) == digits_value_app(digits_value_app(acc, s), t),
    decreases t.len(),
{
    if t.len() == 0 {
        assert(s + t =~= s);
    } else {
        lemma_digits_value_app_concat(acc, s, t.drop_last());
        assert((s + t).drop_last() =~= s + t.drop_last());
        assert((s + t).last() == t.last());
    }
}

/// Reading further digits never shrinks a nonnegative accumulated value.
proof fn lemma_digits_value_app_grows(acc: int, s: Seq<char>)
    requires
        acc >= 0,
        forall|k: int| 0 <= k < s.len() ==> is_digit_char(s[k]),
    ensures
        digits_value_app(acc, s) >= acc,
    decreases s.len(),
{
    if s.len() > 0 {
        assert(forall|k: int|
            0 <= k < s.drop_last().len() ==> is_digit_char(s.drop_last()[k]));
        lemma_digits_value_app_grows(acc, s.drop_last());
        assert(is_digit_char(s.last()));
    }
}

// ---------------------------------------------------------------------------
// The scanner.
// ---------------------------------------------------------------------------

/// Reads the digit characters `v[from..to]` into an accumulator, or reports
/// that the value exceeds the mantissa's range.
fn accumulate_digits(v: &Vec<char>, from: usize, to: usize, acc: u64) -> (r: Option<u64>)
    requires
        from <= to <= v@.len(),
        forall|k: int| from <= k < to ==> is_digit_char(v@[k]),
    ensures
        match r {
            Some(m) => m as int == digits_value_app(
                acc as int,
                v@.subrange(from as int, to as int),
            ),
            None => digits_value_app(acc as int, v@.subrange(from as int, to as int))
                > u64::MAX,
        },
{
    let mut m: u64 = acc;
    let mut k: usize = from;
    proof {
        assert(v@.subrange(from as int, from as int) =~= Seq::<char>::empty());
    }
    while k < to
        invariant
            from <= k <= to <= v@.len(),
            forall|j: int| from <= j < to ==> is_digit_char(v@[j]),
            m as int == digits_value_app(acc as int, v@.subrange(from as int, k as int)),
        decreases to - k,
    {
        let ch = v[k];
        let d: u64 = ((ch as u32) - ('0' as u32)) as u64;
        proof {
            assert(is_digit_char(ch));
            assert(d as int == digit_val(ch));
            assert(d < 10);
            assert(v@.subrange(from as int, k + 1).drop_last() =~= v@.subrange(
                from as int,
                k as int,
            ));
            assert(v@.subrange(from as int, k + 1).last() == v@[k as int]);
        }
        if m > (u64::MAX - d) / 10 {
            proof {
                let max = u64::MAX as int;
                assert((max - d) == 10 * ((max - d) / 10) + ((max - d) % 10));
                assert(10 * (m as int) + d > max);
                let s1 = v@.subrange(from as int, k + 1);
                let s2 = v@.subrange(k + 1, to as int);
                assert(digits_value_app(acc as int, s1) == 10 * (m as int) + d);
                assert(v@.subrange(from as int, to as int) =~= s1 + s2);
                lemma_digits_value_app_concat(acc as int, s1, s2);
                assert(forall|j: int| 0 <= j < s2.len() ==> is_digit_char(s2[j]));
                lemma_digits_value_app_grows(digits_value_app(acc as int, s1), s2);
            }
            return None;
        }
        proof {
            let max = u64::MAX as int;
            assert((max - d) == 10 * ((max - d) / 10) + ((max - d) % 10));
            assert(10 * (m as int) + d <= max);
        }
        m = m * 10 + d;
        k = k + 1;
    }
    Some(m)
}

/// The scanner's state: the full character sequence, the cursor of the next
/// unread character, the start of the lexeme being scanned, and the current
/// 1-based line counter.
pub struct Scanner {
    characters: Vec<char>,
    current: usize,
    start: usize,
    line: usize,
}

impl Scanner {
    /// The character sequence being scanned.
    pub closed spec fn src(self) -> Seq<char> {
        self.characters@
    }

    /// The position of the next unread character.
    pub closed spec fn cursor(self) -> int {
        self.current as int
    }

    /// The current 1-based line counter.
    pub closed spec fn current_line(self) -> int {
        self.line as int
    }

    /// Well-formedness: the cursor is within the input, and the line counter
    /// starts at one and cannot exceed one more than the characters read.
    /// The input's length is bounded so that the line counter cannot wrap.
    pub open spec fn wf(self) -> bool {
        &&& 0 <= self.cursor() <= self.src().len() < usize::MAX
        &&& 1 <= self.current_line() <= self.cursor() + 1
    }

    /// A scanner over `source`, with the cursor at the first character and
    /// the line counter at one.
    pub fn new(source: &str) -> (s: Scanner)
        requires
            source@.len() < usize::MAX,
        ensures
            s.src() == source@,
            s.cursor() == 0,
            s.current_line() == 1,
            s.wf(),
    {
        let n = source.unicode_len();
        let mut characters: Vec<char> = Vec::new();
        let mut k: usize = 0;
        proof {
            assert(characters@ =~= source@.subrange(0, 0));
        }
        while k < n
            invariant
                k <= n,
                n == source@.len(),
                characters@ == source@.subrange(0, k as int),
            decreases n - k,
        {
            characters.push(source.get_char(k));
            k = k + 1;
            proof {
                assert(characters@ =~= source@.subrange(0, k as int));
            }
        }
        proof {
            assert(source@.subrange(0, source@.len() as int) =~= source@);
        }
        Scanner { characters, current: 0, start: 0, line: 1 }
    }

    fn is_digit(&self, ch: char) -> (b: bool)
        ensures
            b == is_digit_char(ch),
    {
        (ch as u32) >= ('0' as u32) && (ch as u32) <= ('9' as u32)
    }

    fn is_alpha(&self, ch: char) -> (b: bool)
        ensures
            b == is_alpha_char(ch),
    {
        ((ch as u32) >= ('a' as u32) && (ch as u32) <= ('z' as u32)) || ((ch as u32) >= ('A'
            as u32) && (ch as u32) <= ('Z' as u32)) || ch == '_'
    }

    fn is_alphanumeric(&self, ch: char) -> (b: bool)
        ensures
            b == is_alnum_char(ch),
    {
        self.is_alpha(ch) || self.is_digit(ch)
    }

    /// True while unread characters remain.
    fn check_done_scanning(&self) -> (b: bool)
        ensures
            b == (self.cursor() < self.src().len()),
    {
        self.current < self.characters.len()
    }

    /// The lookahead helper: consume the next character exactly when it
    /// equals `expected`.
    fn match_char(&mut self, expected: char) -> (b: bool)
        requires
            old(self).wf(),
        ensures
            final(self).src() == old(self).src(),
            final(self).start == old(self).start,
            final(self).line == old(self).line,
            b == (old(self).cursor() < old(self).src().len() && old(self).src()[old(
                self,
            ).cursor()] == expected),
            final(self).cursor() == if b {
                old(self).cursor() + 1
            } else {
                old(self).cursor()
            },
            final(self).wf(),
    {
        if !self.check_done_scanning() {
            return false;
        }
        if self.characters[self.current] != expected {
            return false;
        }
        self.current = self.current + 1;
        true
    }

    /// An item for the lexeme between `start` and the cursor, on the current
    /// line.
    fn make_token(&self, token: Token) -> (it: Item)
        requires
            self.start <= self.current <= self.characters@.len(),
        ensures
            it@ == (ItemView {
                token: token@,
                lexeme: self.src().subrange(self.start as int, self.cursor()),
                line: self.current_line() as nat,
            }),
    {
        let lexeme = crate::token::collect_string(&self.characters, self.start, self.current);
        Item::new(lexeme, token, self.line)
    }

    /// The keyword token for the lexeme `characters[from..to]`, or `None`
    /// where that text is no reserved word.
    fn keyword_token(&self, from: usize, to: usize) -> (t: Option<Token>)
        requires
            from <= to <= self.characters@.len(),
        ensures
            ({
                let text = self.src().subrange(from as int, to as int);
                match t {
                    Some(tok) => tok@ == ident_token(text),
                    None => ident_token(text) == TokenView::Identifier(text),
                }
            }),
    {
        proof {
            reveal_strlit("and");
            reveal_strlit("class");
            reveal_strlit("else");
            reveal_strlit("false");
            reveal_strlit("fun");
            reveal_strlit("for");
            reveal_strlit("if");
            reveal_strlit("nil");
            reveal_strlit("or");
            reveal_strlit("print");
            reveal_strlit("return");
            reveal_strlit("super");
            reveal_strlit("this");
            reveal_strlit("true");
            reveal_strlit("var");
            reveal_strlit("while");
        }
        let ghost text = self.characters@.subrange(from as int, to as int);
        let v = &self.characters;
        let n = to - from;
        if n == 3 && v[from] == 'a' && v[from + 1] == 'n' && v[from + 2] == 'd' {
            proof {
                assert(text =~= "and"@);
                assert(ident_token(text) == TokenView::And);
            }
            Some(Token::And)
        } else if n == 5 && v[from] == 'c' && v[from + 1] == 'l' && v[from + 2] == 'a' && v[from
            + 3] == 's' && v[from + 4] == 's' {
            proof {
                assert(text =~= "class"@);
                assert(ident_token(text) == TokenView::Class);
            }
            Some(Token::Class)
        } else if n == 4 && v[from] == 'e' && v[from + 1] == 'l' && v[from + 2] == 's' && v[from
            + 3] == 'e' {
            proof {
                assert(text =~= "else"@);
                assert(ident_token(text) == TokenView::Else);
            }
            Some(Token::Else)
        } else if n == 5 && v[from] == 'f' && v[from + 1] == 'a' && v[from + 2] == 'l' && v[from
            + 3] == 's' && v[from + 4] == 'e' {
            proof {
                assert(text =~= "false"@);
                assert(text[0] == 'f' && "class"@[0] == 'c');
                assert(ident_token(text) == TokenView::False);
            }
            Some(Token::False)
        } else if n == 3 && v[from] == 'f' && v[from + 1] == 'u' && v[from + 2] == 'n' {
            proof {
                assert(text =~= "fun"@);
                assert(text[0] == 'f' && "and"@[0] == 'a');
                assert(ident_token(text) == TokenView::Fun);
            }
            Some(Token::Fun)
        } else if n == 3 && v[from] == 'f' && v[from + 1] == 'o' && v[from + 2] == 'r' {
            proof {
                assert(text =~= "for"@);
                assert(text[0] == 'f' && "and"@[0] == 'a');
                assert(text[1] == 'o' && "fun"@[1] == 'u');
                assert(ident_token(text) == TokenView::For);
            }
            Some(Token::For)
        } else if n == 2 && v[from] == 'i' && v[from + 1] == 'f' {
            proof {
                assert(text =~= "if"@);
                assert(ident_token(text) == TokenView::If);
            }
            Some(Token::If)
        } else if n == 3 && v[from] == 'n' && v[from + 1] == 'i' && v[from + 2] == 'l' {
            proof {
                assert(text =~= "nil"@);
                assert(text[0] == 'n' && "and"@[0] == 'a' && "fun"@[0] == 'f' && "for"@[0] == 'f');
                assert(ident_token(text) == TokenView::Nil);
            }
            Some(Token::Nil)
        } else if n == 2 && v[from] == 'o' && v[from + 1] == 'r' {
            proof {
                assert(text =~= "or"@);
                assert(text[0] == 'o' && "if"@[0] == 'i');
                assert(ident_token(text) == TokenView::Or);
            }
            Some(Token::Or)
        } else if n == 5 && v[from] == 'p' && v[from + 1] == 'r' && v[from + 2] == 'i' && v[from
            + 3] == 'n' && v[from + 4] == 't' {
            proof {
                assert(text =~= "print"@);
                assert(text[0] == 'p' && "class"@[0] == 'c' && "false"@[0] == 'f');
                assert(ident_token(text) == TokenView::Print);
            }
            Some(Token::Print)
        } else if n == 6 && v[from] == 'r' && v[from + 1] == 'e' && v[from + 2] == 't' && v[from
            + 3] == 'u' && v[from + 4] == 'r' && v[from + 5] == 'n' {
            proof {
                assert(text =~= "return"@);
                assert(ident_token(text) == TokenView::Return);
            }
            Some(Token::Return)
        } else if n == 5 && v[from] == 's' && v[from + 1] == 'u' && v[from + 2] == 'p' && v[from
            + 3] == 'e' && v[from + 4] == 'r' {
            proof {
                assert(text =~= "super"@);
                assert(text[0] == 's' && "class"@[0] == 'c' && "false"@[0] == 'f' && "print"@[0] == 'p');
                assert(ident_token(text) == TokenView::Super);
            }
            Some(Token::Super)
        } else if n == 4 && v[from] == 't' && v[from + 1] == 'h' && v[from + 2] == 'i' && v[from
            + 3] == 's' {
            proof {
                assert(text =~= "this"@);
                assert(text[0] == 't' && "else"@[0] == 'e');
                assert(ident_token(text) == TokenView::This);
            }
            Some(Token::This)
        } else if n == 4 && v[from] == 't' && v[from + 1] == 'r' && v[from + 2] == 'u' && v[from
            + 3] == 'e' {
            proof {
                assert(text =~= "true"@);
                assert(text[0] == 't' && "else"@[0] == 'e');
                assert(text[1] == 'r' && "this"@[1] == 'h');
                assert(ident_token(text) == TokenView::True);
            }
            Some(Token::True)
        } else if n == 3 && v[from] == 'v' && v[from + 1] == 'a' && v[from + 2] == 'r' {
            proof {
                assert(text =~= "var"@);
                assert(text[0] == 'v' && "and"@[0] == 'a' && "fun"@[0] == 'f' && "for"@[0] == 'f' && "nil"@[0] == 'n');
                assert(ident_token(text) == TokenView::Var);
            }
            Some(Token::Var)
        } else if n == 5 && v[from] == 'w' && v[from + 1] == 'h' && v[from + 2] == 'i' && v[from
            + 3] == 'l' && v[from + 4] == 'e' {
            proof {
                assert(text =~= "while"@);
                assert(text[0] == 'w' && "class"@[0] == 'c' && "false"@[0] == 'f' && "print"@[0] == 'p' && "super"@[0] == 's');
                assert(ident_token(text) == TokenView::While);
            }
            Some(Token::While)
        } else {
            proof {
                assert(text.len() == n);
                if n > 0 {
                    assert(text[0] == self.characters@[from as int]);
                }
                if n > 1 {
                    assert(text[1] == self.characters@[from + 1]);
                }
                if n > 2 {
                    assert(text[2] == self.characters@[from + 2]);
                }
                if n > 3 {
                    assert(text[3] == self.characters@[from + 3]);
                }
                if n > 4 {
                    assert(text[4] == self.characters@[from + 4]);
                }
                if n > 5 {
                    assert(text[5] == self.characters@[from + 5]);
                }
                assert(text != "and"@);
                assert(text != "class"@);
                assert(text != "else"@);
                assert(text != "false"@);
                assert(text != "fun"@);
                assert(text != "for"@);
                assert(text != "if"@);
                assert(text != "nil"@);
                assert(text != "or"@);
                assert(text != "print"@);
                assert(text != "return"@);
                assert(text != "super"@);
                assert(text != "this"@);
                assert(text != "true"@);
                assert(text != "var"@);
                assert(text != "while"@);
                assert(ident_token(text) == TokenView::Identifier(text));
            }
            None
        }
    }

    /// Scans a string literal: the cursor stands just after the opening
    /// quote. Embedded newlines advance the line counter; the emitted item
    /// carries the line the literal started on, and its payload is the text
    /// strictly between the quotes, with no escape processing.
    fn scan_string(&mut self) -> (r: Result<Item, ScanError>)
        requires
            old(self).wf(),
            old(self).start + 1 == old(self).current,
            old(self).current <= old(self).src().len(),
            old(self).src()[old(self).start as int] == '"',
        ensures
            final(self).src() == old(self).src(),
            final(self).start == old(self).start,
            final(self).wf(),
            ({
                let cs = old(self).src();
                let q = old(self).start as int;
                let l = old(self).current_line();
                let close = find_char(cs, q + 1, '"');
                if close >= cs.len() {
                    r == Err::<Item, ScanError>(
                        ScanError::UnterminatedString {
                            line: (l + newline_count(cs, q + 1, cs.len() as int)) as usize,
                        },
                    )
                } else {
                    &&& r matches Ok(it) && it@ == (ItemView {
                        token: TokenView::StringLit(cs.subrange(q + 1, close)),
                        lexeme: cs.subrange(q, close + 1),
                        line: l as nat,
                    })
                    &&& final(self).cursor() == close + 1
                    &&& final(self).current_line() == l + newline_count(cs, q + 1, close)
                }
            }),
    {
        let ghost cs = self.characters@;
        let ghost q = self.start as int;
        let ghost l0 = self.line as int;
        let line0 = self.line;
        proof {
            assert(newline_count(cs, q + 1, q + 1) == 0);
        }
        while self.check_done_scanning() && self.characters[self.current] != '"'
            invariant
                self.characters@ == cs,
                self.start == old(self).start,
                q + 1 <= self.cursor() <= cs.len() < usize::MAX,
                find_char(cs, q + 1, '"') == find_char(cs, self.cursor(), '"'),
                self.current_line() == l0 + newline_count(cs, q + 1, self.cursor()),
                self.current_line() <= self.cursor() + 1,
                1 <= self.current_line(),
            decreases cs.len() - self.cursor(),
        {
            proof {
                lemma_newline_count_snoc(cs, q + 1, self.cursor());
            }
            if self.characters[self.current] == '\n' {
                self.line = self.line + 1;
            }
            self.current = self.current + 1;
        }
        if !self.check_done_scanning() {
            return Err(ScanError::UnterminatedString { line: self.line });
        }
        // the closing quote
        self.current = self.current + 1;
        let val = crate::token::collect_string(&self.characters, self.start + 1, self.current
            - 1);
        let lexeme = crate::token::collect_string(&self.characters, self.start, self.current);
        Ok(Item::new(lexeme, Token::StringLit(val), line0))
    }

    /// Scans a number literal: the cursor stands just after its first digit.
    /// A `.` is consumed only when a digit follows it; the emitted value is
    /// the digit string's mantissa and its count of fraction digits.
    fn scan_number(&mut self) -> (r: Result<Item, ScanError>)
        requires
            old(self).wf(),
            old(self).start + 1 == old(self).current,
            old(self).current <= old(self).src().len(),
            is_digit_char(old(self).src()[old(self).start as int]),
        ensures
            final(self).src() == old(self).src(),
            final(self).start == old(self).start,
            final(self).line == old(self).line,
            final(self).wf(),
            ({
                let cs = old(self).src();
                let d0 = old(self).start as int;
                let l = old(self).current_line();
                let int_end = digit_run_end(cs, d0);
                let has_frac = int_end + 1 < cs.len() && cs[int_end] == '.' && is_digit_char(
                    cs[int_end + 1],
                );
                let end = if has_frac {
                    digit_run_end(cs, int_end + 1)
                } else {
                    int_end
                };
                let digits = if has_frac {
                    cs.subrange(d0, int_end) + cs.subrange(int_end + 1, end)
                } else {
                    cs.subrange(d0, int_end)
                };
                if digits_value(digits) > u64::MAX {
                    r == Err::<Item, ScanError>(ScanError::NumberParseFailure)
                } else {
                    &&& r matches Ok(it) && it@ == (ItemView {
                        token: TokenView::Number(
                            NumberValue {
                                mantissa: digits_value(digits) as u64,
                                scale: (if has_frac {
                                    end - int_end - 1
                                } else {
                                    0
                                }) as usize,
                            },
                        ),
                        lexeme: cs.subrange(d0, end),
                        line: l as nat,
                    })
                    &&& final(self).cursor() == end
                }
            }),
    {
        let ghost cs = self.characters@;
        let ghost d0 = self.start as int;
        while self.check_done_scanning() && self.is_digit(self.characters[self.current])
            invariant
                self.characters@ == cs,
                self.start == old(self).start,
                self.line == old(self).line,
                d0 + 1 <= self.cursor() <= cs.len() < usize::MAX,
                1 <= self.current_line() <= d0 + 2,
                digit_run_end(cs, d0) == digit_run_end(cs, self.cursor()),
                forall|k: int| d0 <= k < self.cursor() ==> is_digit_char(cs[k]),
            decreases cs.len() - self.cursor(),
        {
            self.current = self.current + 1;
        }
        let int_end = self.current;
        proof {
            assert(digit_run_end(cs, self.cursor()) == self.cursor());
        }
        let has_frac = self.current + 1 < self.characters.len() && self.characters[self.current]
            == '.' && self.is_digit(self.characters[self.current + 1]);
        if has_frac {
            // Consume the '.'
            self.current = self.current + 1;
            while self.check_done_scanning() && self.is_digit(self.characters[self.current])
                invariant
                    self.characters@ == cs,
                    self.start == old(self).start,
                    self.line == old(self).line,
                    int_end + 1 <= self.cursor() <= cs.len() < usize::MAX,
                    1 <= self.current_line() <= d0 + 2,
                    digit_run_end(cs, int_end + 1) == digit_run_end(cs, self.cursor()),
                    forall|k: int| int_end + 1 <= k < self.cursor() ==> is_digit_char(cs[k]),
                decreases cs.len() - self.cursor(),
            {
                self.current = self.current + 1;
            }
            proof {
                assert(digit_run_end(cs, self.cursor()) == self.cursor());
            }
        }
        let end = self.current;
        let ghost whole = cs.subrange(d0, int_end as int);
        let ghost frac = cs.subrange(int_end + 1, end as int);
        let first = accumulate_digits(&self.characters, self.start, int_end, 0);
        proof {
            if has_frac {
                assert(cs.subrange(d0, int_end as int) + cs.subrange(int_end + 1, end as int)
                    =~= whole + frac);
                lemma_digits_value_app_concat(0, whole, frac);
                assert(forall|j: int| 0 <= j < frac.len() ==> is_digit_char(frac[j]));
            }
        }
        match first {
            None => {
                proof {
                    if has_frac {
                        lemma_digits_value_app_grows(digits_value_app(0, whole), frac);
                    }
                }
                Err(ScanError::NumberParseFailure)
            },
            Some(m1) => {
                if has_frac {
                    match accumulate_digits(&self.characters, int_end + 1, end, m1) {
                        None => Err(ScanError::NumberParseFailure),
                        Some(m2) => {
                            let scale = end - int_end - 1;
                            Ok(
                                self.make_token(
                                    Token::Number(NumberValue { mantissa: m2, scale }),
                                ),
                            )
                        },
                    }
                } else {
                    Ok(self.make_token(Token::Number(NumberValue { mantissa: m1, scale: 0 })))
                }
            },
        }
    }

    /// Scans an identifier or keyword: the cursor stands just after its
    /// first character.
    fn scan_ident(&mut self) -> (r: Item)
        requires
            old(self).wf(),
            old(self).start + 1 == old(self).current,
            old(self).current <= old(self).src().len(),
            is_alpha_char(old(self).src()[old(self).start as int]),
        ensures
            final(self).src() == old(self).src(),
            final(self).start == old(self).start,
            final(self).line == old(self).line,
            final(self).wf(),
            ({
                let cs = old(self).src();
                let st = old(self).start as int;
                let end = alnum_run_end(cs, st);
                &&& final(self).cursor() == end
                &&& r@ == (ItemView {
                    token: ident_token(cs.subrange(st, end)),
                    lexeme: cs.subrange(st, end),
                    line: old(self).current_line() as nat,
                })
            }),
    {
        let ghost cs = self.characters@;
        let ghost st = self.start as int;
        while self.check_done_scanning() && self.is_alphanumeric(self.characters[self.current])
            invariant
                self.characters@ == cs,
                self.start == old(self).start,
                self.line == old(self).line,
                st + 1 <= self.cursor() <= cs.len() < usize::MAX,
                1 <= self.current_line() <= st + 2,
                alnum_run_end(cs, st) == alnum_run_end(cs, self.cursor()),
            decreases cs.len() - self.cursor(),
        {
            self.current = self.current + 1;
        }
        proof {
            assert(alnum_run_end(cs, self.cursor()) == self.cursor());
        }
        let token = match self.keyword_token(self.start, self.current) {
            Some(t) => t,
            None => {
                let text = crate::token::collect_string(&self.characters, self.start,
                    self.current);
                Token::Identifier(text)
            },
        };
        self.make_token(token)
    }

    /// One step of the scanner: consume the character under the cursor,
    /// classify it, and consume the rest of the lexeme it opens. Emits at
    /// most one item; whitespace, newlines and comments emit none.
    fn scan_token(&mut self) -> (r: Result<Option<Item>, ScanError>)
        requires
            old(self).wf(),
            old(self).cursor() < old(self).src().len(),
            old(self).start == old(self).current,
        ensures
            final(self).src() == old(self).src(),
            final(self).wf(),
            match spec_step(old(self).src(), old(self).cursor(), old(self).current_line()) {
                ScanStep::Fail(e) => r == Err::<Option<Item>, ScanError>(e),
                ScanStep::Next { cursor, line, emit } => {
                    &&& final(self).cursor() == cursor
                    &&& final(self).current_line() == line
                    &&& match emit {
                        Some(item) => r matches Ok(Some(it)) && it@ == item,
                        None => r matches Ok(None),
                    }
                },
            },
    {
        let ghost cs = self.characters@;
        let ghost i = self.cursor();
        let character = self.characters[self.current];
        self.current = self.current + 1;
        proof {
            assert(cs.subrange(i, i + 1) =~= seq![character]);
        }
        if character == '(' {
            Ok(Some(self.make_token(Token::LeftParen)))
        } else if character == ')' {
            Ok(Some(self.make_token(Token::RightParen)))
        } else if character == '{' {
            Ok(Some(self.make_token(Token::LeftBrace)))
        } else if character == '}' {
            Ok(Some(self.make_token(Token::RightBrace)))
        } else if character == ',' {
            Ok(Some(self.make_token(Token::Comma)))
        } else if character == '.' {
            Ok(Some(self.make_token(Token::Dot)))
        } else if character == '-' {
            Ok(Some(self.make_token(Token::Minus)))
        } else if character == '+' {
            Ok(Some(self.make_token(Token::Plus)))
        } else if character == ';' {
            Ok(Some(self.make_token(Token::SemiColon)))
        } else if character == '*' {
            Ok(Some(self.make_token(Token::Star)))
        } else if character == '=' {
            if self.match_char('=') {
                proof {
                    assert(cs.subrange(i, i + 2) =~= seq![character, '=']);
                }
                Ok(Some(self.make_token(Token::EqualEqual)))
            } else {
                Ok(Some(self.make_token(Token::Equal)))
            }
        } else if character == '!' {
            if self.match_char('=') {
                proof {
                    assert(cs.subrange(i, i + 2) =~= seq![character, '=']);
                }
                Ok(Some(self.make_token(Token::BangEqual)))
            } else {
                Ok(Some(self.make_token(Token::Bang)))
            }
        } else if character == '<' {
            if self.match_char('=') {
                proof {
                    assert(cs.subrange(i, i + 2) =~= seq![character, '=']);
                }
                Ok(Some(self.make_token(Token::LesserEqual)))
            } else {
                Ok(Some(self.make_token(Token::Lesser)))
            }
        } else if character == '>' {
            if self.match_char('=') {
                proof {
                    assert(cs.subrange(i, i + 2) =~= seq![character, '=']);
                }
                Ok(Some(self.make_token(Token::GreaterEqual)))
            } else {
                Ok(Some(self.make_token(Token::Greater)))
            }
        } else if character == '/' {
            if self.match_char('/') {
                // A comment runs to (but not through) the end of the line.
                while self.check_done_scanning() && self.characters[self.current] != '\n'
                    invariant
                        self.characters@ == cs,
                        self.start == old(self).start,
                        self.line == old(self).line,
                        1 <= self.current_line() <= i + 2,
                        i + 2 <= self.cursor() <= cs.len() < usize::MAX,
                        find_char(cs, i + 2, '\n') == find_char(cs, self.cursor(), '\n'),
                    decreases cs.len() - self.cursor(),
                {
                    self.current = self.current + 1;
                }
                Ok(None)
            } else {
                Ok(Some(self.make_token(Token::Slash)))
            }
        } else if character == ' ' || character == '\r' || character == '\t' {
            Ok(None)
        } else if character == '\n' {
            self.line = self.line + 1;
            Ok(None)
        } else if character == '"' {
            match self.scan_string() {
                Ok(it) => Ok(Some(it)),
                Err(e) => Err(e),
            }
        } else if self.is_digit(character) {
            match self.scan_number() {
                Ok(it) => Ok(Some(it)),
                Err(e) => Err(e),
            }
        } else if self.is_alpha(character) {
            Ok(Some(self.scan_ident()))
        } else {
            Err(ScanError::UnexpectedCharacter { character, line: self.line })
        }
    }

    /// Scans the whole input from the current cursor: the ordered sequence
    /// of lexical items in it, or the first lexical error.
    fn scan_all(&mut self) -> (r: Result<Vec<Item>, ScanError>)
        requires
            old(self).wf(),
        ensures
            match r {
                Ok(items) => spec_scan(old(self).src(), old(self).cursor(), old(
                    self,
                ).current_line()) == Ok::<Seq<ItemView>, ScanError>(items_view(items@)),
                Err(e) => spec_scan(old(self).src(), old(self).cursor(), old(
                    self,
                ).current_line()) == Err::<Seq<ItemView>, ScanError>(e),
            },
    {
        let ghost cs = self.characters@;
        let ghost i0 = self.cursor();
        let ghost l0 = self.current_line();
        let mut tokens: Vec<Item> = Vec::new();
        proof {
            assert(items_view(tokens@) =~= Seq::<ItemView>::empty());
            match spec_scan(cs, i0, l0) {
                Ok(rest) => {
                    assert(items_view(tokens@) + rest =~= rest);
                },
                Err(_) => {},
            }
        }
        while self.check_done_scanning()
            invariant
                self.wf(),
                self.characters@ == cs,
                cs == old(self).src(),
                i0 == old(self).cursor(),
                l0 == old(self).current_line(),
                spec_scan(cs, i0, l0) == (match spec_scan(cs, self.cursor(),
                    self.current_line()) {
                    Ok(rest) => Ok::<Seq<ItemView>, ScanError>(items_view(tokens@) + rest),
                    Err(e) => Err::<Seq<ItemView>, ScanError>(e),
                }),
            decreases cs.len() - self.cursor(),
        {
            let ghost cur0 = self.cursor();
            let ghost line0 = self.current_line();
            proof {
                lemma_step_advances(cs, cur0, line0);
            }
            self.start = self.current;
            match self.scan_token() {
                Err(e) => {
                    proof {
                        assert(spec_step(cs, cur0, line0) == ScanStep::Fail(e));
                        assert(spec_scan(cs, cur0, line0) == Err::<Seq<ItemView>, ScanError>(
                            e,
                        ));
                        assert(spec_scan(cs, i0, l0) == Err::<Seq<ItemView>, ScanError>(e));
                    }
                    return Err(e);
                },
                Ok(emitted) => {
                    let ghost emit_seq: Seq<ItemView> = match emitted {
                        Some(ref it) => seq![it@],
                        None => Seq::<ItemView>::empty(),
                    };
                    let ghost tokens_before = tokens@;
                    if let Some(item) = emitted {
                        tokens.push(item);
                        proof {
                            assert(items_view(tokens@) =~= items_view(tokens_before)
                                + emit_seq);
                        }
                    } else {
                        proof {
                            assert(items_view(tokens@) =~= items_view(tokens_before)
                                + emit_seq);
                        }
                    }
                    proof {
                        match spec_scan(cs, self.cursor(), self.current_line()) {
                            Ok(rest) => {
                                assert(items_view(tokens_before) + (emit_seq + rest)
                                    =~= items_view(tokens@) + rest);
                            },
                            Err(_) => {},
                        }
                    }
                },
            }
        }
        proof {
            assert(spec_scan(cs, self.cursor(), self.current_line()) == Ok::<
                Seq<ItemView>,
                ScanError,
            >(Seq::empty()));
            assert(items_view(tokens@) + Seq::<ItemView>::empty() =~= items_view(tokens@));
        }
        Ok(tokens)
    }

    /// Scans the whole input: the ordered sequence of lexical items in it,
    /// or the first lexical error. The result is exactly what `spec_scan`
    /// says of the character sequence.
    pub fn scan_tokens(self) -> (r: Result<Vec<Item>, ScanError>)
        requires
            self.wf(),
        ensures
            match r {
                Ok(items) => spec_scan(self.src(), self.cursor(), self.current_line())
                    == Ok::<Seq<ItemView>, ScanError>(items_view(items@)),
                Err(e) => spec_scan(self.src(), self.cursor(), self.current_line())
                    == Err::<Seq<ItemView>, ScanError>(e),
            },
    {
        let mut this = self;
        this.scan_all()
    }
}

/// For every single-character punctuation input, scanning yields exactly
/// one lexical item, on line 1, whose token matches the character and whose
/// lexeme is that character alone. The slash, scanned on its own, behaves
/// the same and yields the slash token.
pub proof fn lemma_single_punct_scan(c: char)
    requires
        is_single_punct(c) || c == '/',
    ensures
        spec_scan(seq![c], 0, 1) == Ok::<Seq<ItemView>, ScanError>(
            seq![
                ItemView {
                    token: if c == '/' {
                        TokenView::Slash
                    } else {
                        punct_token(c)
                    },
                    lexeme: seq![c],
                    line: 1,
                },
            ],
        ),
{
    let cs = seq![c];
    let item = ItemView {
        token: if c == '/' {
            TokenView::Slash
        } else {
            punct_token(c)
        },
        lexeme: seq![c],
        line: 1,
    };
    assert(cs.subrange(0, 1) =~= seq![c]);
    assert(spec_step(cs, 0, 1) == ScanStep::Next { cursor: 1, line: 1, emit: Some(item) });
    assert(spec_scan(cs, 1, 1) == Ok::<Seq<ItemView>, ScanError>(Seq::empty()));
    assert(seq![item] + Seq::<ItemView>::empty() =~= seq![item]);
}

} // verus!
