//! The closed set of lexical categories, and the lexical item (token plus
//! lexeme plus line) that the scanner emits.

use vstd::prelude::*;

verus! {

/// The numeric payload of a number token: the literal's digits as an integer
/// mantissa together with the count of digits after the decimal point, so
/// that the value denoted is `mantissa / 10^scale`. Both the raw lexeme (on
/// the emitted item) and this exact value are surfaced, so a later stage can
/// decide how to represent numbers.
#[derive(Debug, Clone, Copy, PartialEq, Eq, Structural)]
pub struct NumberValue {
    pub mantissa: u64,
    pub scale: usize,
}

/// A lexical category. Literal-bearing variants carry their payload:
/// identifiers and string literals their text, numbers their value.
#[derive(Debug, PartialEq)]
pub enum Token {
    // Single-character tokens.
    LeftParen,
    RightParen,
    LeftBrace,
    RightBrace,
    Comma,
    Dot,
    Minus,
    Plus,
    SemiColon,
    Slash,
    Star,
    // One or two character tokens.
    Bang,
    BangEqual,
    Equal,
    EqualEqual,
    Greater,
    GreaterEqual,
    Lesser,
    LesserEqual,
    // Literals.
    Identifier(String),
    StringLit(String),
    Number(NumberValue),
    // Keywords.
    And,
    Class,
    Else,
    False,
    Fun,
    For,
    If,
    Nil,
    Or,
    Print,
    Return,
    Super,
    This,
    True,
    Var,
    While,
    // End-of-stream marker.
    Eof,
}

/// The mathematical model of a token: text payloads are character sequences.
pub enum TokenView {
    LeftParen,
    RightParen,
    LeftBrace,
    RightBrace,
    Comma,
    Dot,
    Minus,
    Plus,
    SemiColon,
    Slash,
    Star,
    Bang,
    BangEqual,
    Equal,
    EqualEqual,
    Greater,
    GreaterEqual,
    Lesser,
    LesserEqual,
    Identifier(Seq<char>),
    StringLit(Seq<char>),
    Number(NumberValue),
    And,
    Class,
    Else,
    False,
    Fun,
    For,
    If,
    Nil,
    Or,
    Print,
    Return,
    Super,
    This,
    True,
    Var,
    While,
    Eof,
}

impl View for Token {
    type V = TokenView;

    open spec fn view(&self) -> TokenView {
        match self {
            Token::LeftParen => TokenView::LeftParen,
            Token::RightParen => TokenView::RightParen,
            Token::LeftBrace => TokenView::LeftBrace,
            Token::RightBrace => TokenView::RightBrace,
            Token::Comma => TokenView::Comma,
            Token::Dot => TokenView::Dot,
            Token::Minus => TokenView::Minus,
            Token::Plus => TokenView::Plus,
            Token::SemiColon => TokenView::SemiColon,
            Token::Slash => TokenView::Slash,
            Token::Star => TokenView::Star,
            Token::Bang => TokenView::Bang,
            Token::BangEqual => TokenView::BangEqual,
            Token::Equal => TokenView::Equal,
            Token::EqualEqual => TokenView::EqualEqual,
            Token::Greater => TokenView::Greater,
            Token::GreaterEqual => TokenView::GreaterEqual,
            Token::Lesser => TokenView::Lesser,
            Token::LesserEqual => TokenView::LesserEqual,
            Token::Identifier(s) => TokenView::Identifier(s@),
            Token::StringLit(s) => TokenView::StringLit(s@),
            Token::Number(v) => TokenView::Number(*v),
            Token::And => TokenView::And,
            Token::Class => TokenView::Class,
            Token::Else => TokenView::Else,
            Token::False => TokenView::False,
            Token::Fun => TokenView::Fun,
            Token::For => TokenView::For,
            Token::If => TokenView::If,
            Token::Nil => TokenView::Nil,
            Token::Or => TokenView::Or,
            Token::Print => TokenView::Print,
            Token::Return => TokenView::Return,
            Token::Super => TokenView::Super,
            Token::This => TokenView::This,
            Token::True => TokenView::True,
            Token::Var => TokenView::Var,
            Token::While => TokenView::While,
            Token::Eof => TokenView::Eof,
        }
    }
}

/// The character for a single decimal digit value.
pub open spec fn digit_char(d: int) -> char {
    if d == 0 {
        '0'
    } else if d == 1 {
        '1'
    } else if d == 2 {
        '2'
    } else if d == 3 {
        '3'
    } else if d == 4 {
        '4'
    } else if d == 5 {
        '5'
    } else if d == 6 {
        '6'
    } else if d == 7 {
        '7'
    } else if d == 8 {
        '8'
    } else {
        '9'
    }
}

/// The decimal digit sequence of a nonnegative integer, most significant
/// digit first, with no leading zeros (`0` is rendered as "0").
pub open spec fn dec_digits(n: int) -> Seq<char>
    recommends
        n >= 0,
    decreases n,
{
    if n < 10 {
        seq![digit_char(n)]
    } else {
        dec_digits(n / 10).push(digit_char(n % 10))
    }
}

/// The canonical text of a number value: the mantissa's digits, with a
/// decimal point before the last `scale` digits (zero-padded on the left so
/// that at least one digit stands before the point).
pub open spec fn number_text(v: NumberValue) -> Seq<char> {
    let ds = dec_digits(v.mantissa as int);
    if v.scale == 0 {
        ds
    } else {
        let padded = if ds.len() > v.scale {
            ds
        } else {
            Seq::new((v.scale + 1 - ds.len()) as nat, |i: int| '0') + ds
        };
        padded.subrange(0, padded.len() - v.scale) + seq!['.'] + padded.subrange(
            padded.len() - v.scale,
            padded.len() as int,
        )
    }
}

/// The canonical printed text of a token, as the expression printer uses it:
/// numbers render as their value, the few operators meaningful in printed
/// expressions render as themselves, and every other token renders as the
/// placeholder "Any".
pub open spec fn token_text(t: TokenView) -> Seq<char> {
    match t {
        TokenView::Number(v) => number_text(v),
        TokenView::EqualEqual => "=="@,
        TokenView::Equal => "="@,
        TokenView::Star => "*"@,
        TokenView::Minus => "-"@,
        TokenView::Plus => "+"@,
        _ => "Any"@,
    }
}

/// Relies on String::push: appends exactly one character at the end.
#[verifier::external_body]
pub(crate) fn push_char(s: &mut String, c: char)
    ensures
        final(s)@ == old(s)@.push(c),
{
    s.push(c);
}

/// Builds the string holding the characters `v[from..to]`.
pub(crate) fn collect_string(v: &Vec<char>, from: usize, to: usize) -> (s: String)
    requires
        from <= to <= v@.len(),
    ensures
        s@ == v@.subrange(from as int, to as int),
{
    let mut s = String::new();
    let mut k: usize = from;
    proof {
        assert(s@ =~= v@.subrange(from as int, from as int));
    }
    while k < to
        invariant
            from <= k <= to <= v@.len(),
            s@ == v@.subrange(from as int, k as int),
        decreases to - k,
    {
        push_char(&mut s, v[k]);
        k = k + 1;
        proof {
            assert(s@ =~= v@.subrange(from as int, k as int));
        }
    }
    s
}

/// The exec counterpart of `digit_char`.
fn digit_char_of(d: u64) -> (c: char)
    requires
        d < 10,
    ensures
        c == digit_char(d as int),
{
    if d == 0 {
        '0'
    } else if d == 1 {
        '1'
    } else if d == 2 {
        '2'
    } else if d == 3 {
        '3'
    } else if d == 4 {
        '4'
    } else if d == 5 {
        '5'
    } else if d == 6 {
        '6'
    } else if d == 7 {
        '7'
    } else if d == 8 {
        '8'
    } else {
        '9'
    }
}

/// Renders a nonnegative integer in decimal.
pub(crate) fn u64_digits(n: u64) -> (ds: Vec<char>)
    ensures
        ds@ == dec_digits(n as int),
{
    let mut ds: Vec<char> = Vec::new();
    let d: u64 = n % 10;
    ds.push(digit_char_of(d));
    let mut m: u64 = n / 10;
    proof {
        if m > 0 {
            assert(dec_digits(n as int) == dec_digits(m as int).push(digit_char(n as int % 10)));
            assert(dec_digits(m as int).push(digit_char(d as int)) =~= dec_digits(m as int)
                + ds@);
        } else {
            assert(dec_digits(n as int) =~= ds@);
        }
    }
    while m > 0
        invariant
            m > 0 ==> dec_digits(n as int) == dec_digits(m as int) + ds@,
            m == 0 ==> dec_digits(n as int) == ds@,
        decreases m,
    {
        let ghost prev = ds@;
        let ghost m0 = m as int;
        let d2: u64 = m % 10;
        ds.insert(0, digit_char_of(d2));
        m = m / 10;
        proof {
            assert(ds@ =~= seq![digit_char(d2 as int)] + prev);
            if m > 0 {
                assert(dec_digits(m0) == dec_digits(m0 / 10).push(digit_char(m0 % 10)));
                assert(dec_digits(m0 / 10).push(digit_char(m0 % 10)) + prev =~= dec_digits(
                    m as int,
                ) + ds@);
            } else {
                assert(dec_digits(m0) =~= seq![digit_char(m0)]);
                assert(dec_digits(m0) + prev =~= ds@);
            }
        }
    }
    ds
}

/// Renders a number value as its canonical text.
pub(crate) fn number_string(v: NumberValue) -> (s: String)
    ensures
        s@ == number_text(v),
{
    let mut ds = u64_digits(v.mantissa);
    if v.scale == 0 {
        let n = ds.len();
        return collect_string(&ds, 0, n);
    }
    let ghost orig = dec_digits(v.mantissa as int);
    while ds.len() <= v.scale
        invariant
            orig == dec_digits(v.mantissa as int),
            ds@.len() >= orig.len() > 0,
            ds@.subrange(ds@.len() - orig.len(), ds@.len() as int) == orig,
            forall|k: int| 0 <= k < ds@.len() - orig.len() ==> ds@[k] == '0',
            orig.len() <= v.scale ==> ds@.len() <= v.scale + 1,
            orig.len() > v.scale ==> ds@ == orig,
        decreases v.scale + 1 - ds@.len(),
    {
        let ghost prev = ds@;
        ds.insert(0, '0');
        proof {
            assert(ds@ =~= seq!['0'] + prev);
            assert(ds@.subrange(ds@.len() - orig.len(), ds@.len() as int) =~= prev.subrange(
                prev.len() - orig.len(),
                prev.len() as int,
            ));
        }
    }
    proof {
        if orig.len() <= v.scale {
            let padded = Seq::new((v.scale + 1 - orig.len()) as nat, |i: int| '0') + orig;
            assert(ds@.len() == v.scale + 1);
            assert forall|k: int| 0 <= k < ds@.len() implies ds@[k] == padded[k] by {
                let shift = ds@.len() - orig.len();
                if k >= shift {
                    assert(ds@.subrange(shift, ds@.len() as int)[k - shift] == orig[k - shift]);
                }
            }
            assert(ds@ =~= padded);
        }
    }
    let ghost padded = ds@;
    let cut = ds.len() - v.scale;
    ds.insert(cut, '.');
    proof {
        assert(ds@ =~= padded.subrange(0, padded.len() - v.scale) + seq!['.'] + padded.subrange(
            padded.len() - v.scale,
            padded.len() as int,
        ));
    }
    let n = ds.len();
    collect_string(&ds, 0, n)
}

/// The name of a token's lexical category.
pub open spec fn token_kind_text(t: TokenView) -> Seq<char> {
    match t {
        TokenView::LeftParen => "LeftParen"@,
        TokenView::RightParen => "RightParen"@,
        TokenView::LeftBrace => "LeftBrace"@,
        TokenView::RightBrace => "RightBrace"@,
        TokenView::Comma => "Comma"@,
        TokenView::Dot => "Dot"@,
        TokenView::Minus => "Minus"@,
        TokenView::Plus => "Plus"@,
        TokenView::SemiColon => "SemiColon"@,
        TokenView::Slash => "Slash"@,
        TokenView::Star => "Star"@,
        TokenView::Bang => "Bang"@,
        TokenView::BangEqual => "BangEqual"@,
        TokenView::Equal => "Equal"@,
        TokenView::EqualEqual => "EqualEqual"@,
        TokenView::Greater => "Greater"@,
        TokenView::GreaterEqual => "GreaterEqual"@,
        TokenView::Lesser => "Lesser"@,
        TokenView::LesserEqual => "LesserEqual"@,
        TokenView::Identifier(_) => "Identifier"@,
        TokenView::StringLit(_) => "StringLit"@,
        TokenView::Number(_) => "Number"@,
        TokenView::And => "And"@,
        TokenView::Class => "Class"@,
        TokenView::Else => "Else"@,
        TokenView::False => "False"@,
        TokenView::Fun => "Fun"@,
        TokenView::For => "For"@,
        TokenView::If => "If"@,
        TokenView::Nil => "Nil"@,
        TokenView::Or => "Or"@,
        TokenView::Print => "Print"@,
        TokenView::Return => "Return"@,
        TokenView::Super => "Super"@,
        TokenView::This => "This"@,
        TokenView::True => "True"@,
        TokenView::Var => "Var"@,
        TokenView::While => "While"@,
        TokenView::Eof => "Eof"@,
    }
}

impl Token {
    /// The name of this token's lexical category.
    pub fn kind_name(&self) -> (s: &'static str)
        ensures
            s@ == token_kind_text(self@),
    {
        match self {
            Token::LeftParen => "LeftParen",
            Token::RightParen => "RightParen",
            Token::LeftBrace => "LeftBrace",
            Token::RightBrace => "RightBrace",
            Token::Comma => "Comma",
            Token::Dot => "Dot",
            Token::Minus => "Minus",
            Token::Plus => "Plus",
            Token::SemiColon => "SemiColon",
            Token::Slash => "Slash",
            Token::Star => "Star",
            Token::Bang => "Bang",
            Token::BangEqual => "BangEqual",
            Token::Equal => "Equal",
            Token::EqualEqual => "EqualEqual",
            Token::Greater => "Greater",
            Token::GreaterEqual => "GreaterEqual",
            Token::Lesser => "Lesser",
            Token::LesserEqual => "LesserEqual",
            Token::Identifier(_) => "Identifier",
            Token::StringLit(_) => "StringLit",
            Token::Number(_) => "Number",
            Token::And => "And",
            Token::Class => "Class",
            Token::Else => "Else",
            Token::False => "False",
            Token::Fun => "Fun",
            Token::For => "For",
            Token::If => "If",
            Token::Nil => "Nil",
            Token::Or => "Or",
            Token::Print => "Print",
            Token::Return => "Return",
            Token::Super => "Super",
            Token::This => "This",
            Token::True => "True",
            Token::Var => "Var",
            Token::While => "While",
            Token::Eof => "Eof",
        }
    }

    /// The canonical printed text of this token.
    pub fn to_string(&self) -> (s: String)
        ensures
            s@ == token_text(self@),
    {
        match self {
            Token::Number(v) => number_string(*v),
            Token::EqualEqual => String::from_str("=="),
            Token::Equal => String::from_str("="),
            Token::Star => String::from_str("*"),
            Token::Minus => String::from_str("-"),
            Token::Plus => String::from_str("+"),
            _ => String::from_str("Any"),
        }
    }
}

/// A lexical item: a token, the exact source substring it was scanned from,
/// and the 1-based source line on which it starts.
#[derive(Debug, PartialEq)]
pub struct Item {
    pub token: Token,
    pub lexeme: String,
    pub line: usize,
}

/// The mathematical model of a lexical item.
pub struct ItemView {
    pub token: TokenView,
    pub lexeme: Seq<char>,
    pub line: nat,
}

impl View for Item {
    type V = ItemView;

    open spec fn view(&self) -> ItemView {
        ItemView { token: self.token@, lexeme: self.lexeme@, line: self.line as nat }
    }
}

/// The descriptive text of an item: its category's name, its lexeme and its
/// line, separated by single spaces.
pub open spec fn item_text(it: ItemView) -> Seq<char> {
    token_kind_text(it.token) + " "@ + it.lexeme + " "@ + dec_digits(it.line as int)
}

impl Item {
    pub fn new(lexeme: String, token: Token, line: usize) -> (it: Item)
        ensures
            it@ == (ItemView { token: token@, lexeme: lexeme@, line: line as nat }),
    {
        Item { lexeme, token, line }
    }

    /// Renders the item for display: category name, lexeme and line.
    pub fn to_string(self) -> (s: String)
        ensures
            s@ == item_text(self@),
    {
        let mut s = String::from_str(self.token.kind_name());
        s.append(" ");
        s.append(self.lexeme.as_str());
        s.append(" ");
        let line_digits = u64_digits(self.line as u64);
        let n = line_digits.len();
        let line_str = collect_string(&line_digits, 0, n);
        s.append(line_str.as_str());
        proof {
            assert(line_digits@.subrange(0, line_digits@.len() as int) =~= line_digits@);
        }
        s
    }
}

} // verus!
