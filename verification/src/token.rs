use vstd::prelude::*;

verus! {

/// The kinds of tokens produced by the lexer.
#[derive(Debug, Clone, Copy, PartialEq, Eq, Hash, Structural)]
pub enum TokenType {
    Illegal,
    Eof,
    Identifier,
    Float,
    Int,
    String,
    Bool,
    UnterminatedString,
    // Operators
    Assign,
    Plus,
    Minus,
    Asterisk,
    Slash,
    Modulo,
    Power,
    // Bitwise operators
    BitAnd,
    BitOr,
    BitNot,
    // Logical operators
    And,
    Or,
    // Comparisons
    LessThan,
    GreaterThan,
    LessEqual,
    GreaterEqual,
    Equal,
    Not,
    NotEqual,
    Comma,
    Semicolon,
    LeftParenthesis,
    RightParenthesis,
    LeftBrace,
    RightBrace,
    LeftBracket,
    RightBracket,
    Function,
    True,
    False,
    If,
    Else,
    While,
    For,
    Break,
    Continue,
    Return,
    Const,
    Type,
}

/// A token: its kind and the source text it stands for.
#[derive(Debug, Clone, PartialEq, Eq, Hash)]
pub struct Token {
    pub token_type: TokenType,
    pub literal: String,
}

/// The mathematical model of a token: its kind and its text.
pub struct TokenModel {
    pub ty: TokenType,
    pub lit: Seq<char>,
}

impl View for Token {
    type V = TokenModel;

    open spec fn view(&self) -> TokenModel {
        TokenModel { ty: self.token_type, lit: self.literal@ }
    }
}

/// Binding strength of an operator, from the loosest to the tightest; the
/// derived order is that of the declaration.
#[derive(Debug, Copy, Clone, PartialEq, Eq, PartialOrd, Ord, Structural)]
pub enum Precedence {
    Lowest,
    Equals,
    LessGreater,
    Sum,
    Product,
    Prefix,
    Call,
}

impl Precedence {
    /// The numeric level of a precedence: `Lowest` is 1 and `Call` is 7.
    pub open spec fn level(self) -> int {
        match self {
            Precedence::Lowest => 1,
            Precedence::Equals => 2,
            Precedence::LessGreater => 3,
            Precedence::Sum => 4,
            Precedence::Product => 5,
            Precedence::Prefix => 6,
            Precedence::Call => 7,
        }
    }

    /// The numeric level of this precedence.
    pub fn rank(&self) -> (r: u8)
        ensures
            r as int == self.level(),
    {
        match self {
            Precedence::Lowest => 1,
            Precedence::Equals => 2,
            Precedence::LessGreater => 3,
            Precedence::Sum => 4,
            Precedence::Product => 5,
            Precedence::Prefix => 6,
            Precedence::Call => 7,
        }
    }

    /// `self` binds strictly less tightly than `other`.
    pub fn binds_looser_than(&self, other: &Precedence) -> (r: bool)
        ensures
            r == (self.level() < other.level()),
    {
        self.rank() < other.rank()
    }
}

/// The precedence an operator token has when it stands between two operands.
pub open spec fn precedence_of(t: TokenType) -> Precedence {
    match t {
        TokenType::Equal | TokenType::NotEqual => Precedence::Equals,
        TokenType::LessThan | TokenType::GreaterThan => Precedence::LessGreater,
        TokenType::Plus | TokenType::Minus => Precedence::Sum,
        TokenType::Slash | TokenType::Asterisk => Precedence::Product,
        TokenType::LeftParenthesis => Precedence::Call,
        _ => Precedence::Lowest,
    }
}

/// A call binds tightest: `(` after an operand binds more tightly than any
/// operator, prefix operators included (so `-f(x)` is `-(f(x))`); then come
/// `*` and `/`, then `+` and `-`, then `<` and `>`, then `==` and `!=`.
pub proof fn law_call_binds_tightest(t: TokenType)
    ensures
        t != TokenType::LeftParenthesis ==> precedence_of(t).level() < precedence_of(
            TokenType::LeftParenthesis,
        ).level(),
        Precedence::Prefix.level() < precedence_of(TokenType::LeftParenthesis).level(),
        precedence_of(t).level() <= Precedence::Product.level() || t == TokenType::LeftParenthesis,
        precedence_of(TokenType::Plus).level() < precedence_of(TokenType::Asterisk).level(),
        precedence_of(TokenType::LessThan).level() < precedence_of(TokenType::Plus).level(),
        precedence_of(TokenType::Equal).level() < precedence_of(TokenType::LessThan).level(),
        precedence_of(TokenType::Minus) == precedence_of(TokenType::Plus),
        precedence_of(TokenType::Slash) == precedence_of(TokenType::Asterisk),
        precedence_of(TokenType::GreaterThan) == precedence_of(TokenType::LessThan),
        precedence_of(TokenType::NotEqual) == precedence_of(TokenType::Equal),
{
}

impl TokenType {
    /// The precedence of this token when used as an infix operator.
    pub fn precedence(&self) -> (p: Precedence)
        ensures
            p == precedence_of(*self),
    {
        match self {
            TokenType::Equal | TokenType::NotEqual => Precedence::Equals,
            TokenType::LessThan | TokenType::GreaterThan => Precedence::LessGreater,
            TokenType::Plus | TokenType::Minus => Precedence::Sum,
            TokenType::Slash | TokenType::Asterisk => Precedence::Product,
            TokenType::LeftParenthesis => Precedence::Call,
            _ => Precedence::Lowest,
        }
    }
}

/// The token kind of a word: a keyword's own kind, or `Identifier`.
pub open spec fn keyword_type(w: Seq<char>) -> TokenType {
    if w == seq!['f', 'u', 'n', 'c'] {
        TokenType::Function
    } else if w == seq!['c', 'o', 'n', 's', 't'] {
        TokenType::Const
    } else if w == seq!['i', 'n', 't'] {
        TokenType::Type
    } else if w == seq!['s', 't', 'r', 'i', 'n', 'g'] {
        TokenType::Type
    } else if w == seq!['b', 'o', 'o', 'l'] {
        TokenType::Type
    } else if w == seq!['t', 'r', 'u', 'e'] {
        TokenType::True
    } else if w == seq!['f', 'a', 'l', 's', 'e'] {
        TokenType::False
    } else if w == seq!['i', 'f'] {
        TokenType::If
    } else if w == seq!['e', 'l', 's', 'e'] {
        TokenType::Else
    } else if w == seq!['w', 'h', 'i', 'l', 'e'] {
        TokenType::While
    } else if w == seq!['f', 'o', 'r'] {
        TokenType::For
    } else if w == seq!['b', 'r', 'e', 'a', 'k'] {
        TokenType::Break
    } else if w == seq!['c', 'o', 'n', 't', 'i', 'n', 'u', 'e'] {
        TokenType::Continue
    } else if w == seq!['r', 'e', 't', 'u', 'r', 'n'] {
        TokenType::Return
    } else {
        TokenType::Identifier
    }
}

/// Whether the characters `w` spell out the word `lit`.
fn chars_spell(w: &[char], lit: &[char]) -> (r: bool)
    ensures
        r == (w@ == lit@),
{
    if w.len() != lit.len() {
        return false;
    }
    let mut i: usize = 0;
    while i < w.len()
        invariant
            w@.len() == lit@.len(),
            0 <= i <= w@.len(),
            forall|j: int| 0 <= j < i ==> w@[j] == lit@[j],
        decreases w@.len() - i,
    {
        if w[i] != lit[i] {
            return false;
        }
        i = i + 1;
    }
    assert(w@ =~= lit@);
    true
}

/// The token kind of a word given as characters.
pub fn keyword_type_of(w: &[char]) -> (t: TokenType)
    ensures
        t == keyword_type(w@),
{
    if chars_spell(w, &['f', 'u', 'n', 'c']) {
        TokenType::Function
    } else if chars_spell(w, &['c', 'o', 'n', 's', 't']) {
        TokenType::Const
    } else if chars_spell(w, &['i', 'n', 't']) {
        TokenType::Type
    } else if chars_spell(w, &['s', 't', 'r', 'i', 'n', 'g']) {
        TokenType::Type
    } else if chars_spell(w, &['b', 'o', 'o', 'l']) {
        TokenType::Type
    } else if chars_spell(w, &['t', 'r', 'u', 'e']) {
        TokenType::True
    } else if chars_spell(w, &['f', 'a', 'l', 's', 'e']) {
        TokenType::False
    } else if chars_spell(w, &['i', 'f']) {
        TokenType::If
    } else if chars_spell(w, &['e', 'l', 's', 'e']) {
        TokenType::Else
    } else if chars_spell(w, &['w', 'h', 'i', 'l', 'e']) {
        TokenType::While
    } else if chars_spell(w, &['f', 'o', 'r']) {
        TokenType::For
    } else if chars_spell(w, &['b', 'r', 'e', 'a', 'k']) {
        TokenType::Break
    } else if chars_spell(w, &['c', 'o', 'n', 't', 'i', 'n', 'u', 'e']) {
        TokenType::Continue
    } else if chars_spell(w, &['r', 'e', 't', 'u', 'r', 'n']) {
        TokenType::Return
    } else {
        TokenType::Identifier
    }
}

/// The token kind of an identifier-shaped word: keywords map to their own
/// kinds, every other word is an `Identifier`.
pub fn lookup_identifier(identifier: &str) -> (t: TokenType)
    ensures
        t == keyword_type(identifier@),
{
    let n = identifier.unicode_len();
    let mut w: Vec<char> = Vec::new();
    let mut i: usize = 0;
    while i < n
        invariant
            n == identifier@.len(),
            0 <= i <= n,
            w@ == identifier@.subrange(0, i as int),
        decreases n - i,
    {
        w.push(identifier.get_char(i));
        i = i + 1;
        assert(w@ =~= identifier@.subrange(0, i as int));
    }
    assert(w@ =~= identifier@);
    keyword_type_of(w.as_slice())
}

} // verus!
