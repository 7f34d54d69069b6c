use vstd::prelude::*;

use crate::token::{keyword_type, lookup_identifier, Token, TokenModel, TokenType};

verus! {

/// Options that change how source text is split into tokens.
#[derive(Debug, Clone)]
pub struct Config {
    pub allow_comments: bool,
    pub string_delimiters: Vec<char>,
}

impl Default for Config {
    fn default() -> (c: Self)
        ensures
            c.allow_comments,
            c.string_delimiters@ == seq!['"', '\''],
    {
        Config { allow_comments: true, string_delimiters: vec!['"', '\''] }
    }
}

/// `x + 1`, held at `usize::MAX` once there.
pub open spec fn sat_inc(x: usize) -> usize {
    if x < usize::MAX {
        (x + 1) as usize
    } else {
        x
    }
}

fn inc(x: usize) -> (r: usize)
    ensures
        r == sat_inc(x),
{
    if x < usize::MAX {
        x + 1
    } else {
        x
    }
}

/// The character at index `i`, or `'\0'` past the end.
pub open spec fn char_at(s: Seq<char>, i: int) -> char {
    if 0 <= i < s.len() {
        s[i]
    } else {
        '\0'
    }
}

/// ASCII letter.
pub open spec fn is_ascii_alpha(c: char) -> bool {
    ('a' as u32 <= c as u32 <= 'z' as u32) || ('A' as u32 <= c as u32 <= 'Z' as u32)
}

/// What `char::is_alphabetic` returns for `c` (the Unicode `Alphabetic` property).
pub uninterp spec fn unicode_alphabetic(c: char) -> bool;

/// `char::is_alphabetic`. Its contract claims: the result is
/// `unicode_alphabetic(c)`, and for an ASCII character it holds exactly of the
/// letters `a`-`z` and `A`-`Z` (the standard library tests that range before
/// it consults the Unicode tables). What the tables say of non-ASCII
/// characters is left unsaid.
#[verifier::external_body]
fn char_is_alphabetic(c: char) -> (r: bool)
    ensures
        r == unicode_alphabetic(c),
        (c as u32) < 128 ==> (r == is_ascii_alpha(c)),
{
    c.is_alphabetic()
}

/// A character that may start or continue an identifier: `_`, an ASCII
/// letter, or a non-ASCII character with the Unicode `Alphabetic` property.
pub open spec fn is_letter(c: char) -> bool {
    if (c as u32) < 128 {
        is_ascii_alpha(c) || c == '_'
    } else {
        unicode_alphabetic(c) || c == '_'
    }
}

/// ASCII decimal digit.
pub open spec fn is_digit(c: char) -> bool {
    '0' as u32 <= c as u32 <= '9' as u32
}

/// ASCII hexadecimal digit.
pub open spec fn is_hex_digit(c: char) -> bool {
    is_digit(c) || ('a' as u32 <= c as u32 <= 'f' as u32) || ('A' as u32 <= c as u32 <= 'F' as u32)
}

/// Binary digit.
pub open spec fn is_binary_digit(c: char) -> bool {
    c == '0' || c == '1'
}

/// The Unicode `White_Space` property.
pub open spec fn is_whitespace(c: char) -> bool {
    let u = c as u32;
    ||| 0x09 <= u <= 0x0D
    ||| u == 0x20
    ||| u == 0x85
    ||| u == 0xA0
    ||| u == 0x1680
    ||| 0x2000 <= u <= 0x200A
    ||| u == 0x2028
    ||| u == 0x2029
    ||| u == 0x202F
    ||| u == 0x205F
    ||| u == 0x3000
}

fn letter(c: char) -> (r: bool)
    ensures
        r == is_letter(c),
        c == '\0' ==> !r,
{
    char_is_alphabetic(c) || c == '_'
}

fn digit(c: char) -> (r: bool)
    ensures
        r == is_digit(c),
{
    '0' as u32 <= c as u32 && c as u32 <= '9' as u32
}

fn hex_digit(c: char) -> (r: bool)
    ensures
        r == is_hex_digit(c),
{
    let u = c as u32;
    ('0' as u32 <= u && u <= '9' as u32) || ('a' as u32 <= u && u <= 'f' as u32) || ('A' as u32
        <= u && u <= 'F' as u32)
}

fn binary_digit(c: char) -> (r: bool)
    ensures
        r == is_binary_digit(c),
{
    c == '0' || c == '1'
}

fn whitespace(c: char) -> (r: bool)
    ensures
        r == is_whitespace(c),
{
    let u = c as u32;
    (0x09 <= u && u <= 0x0D) || u == 0x20 || u == 0x85 || u == 0xA0 || u == 0x1680 || (0x2000 <= u
        && u <= 0x200A) || u == 0x2028 || u == 0x2029 || u == 0x202F || u == 0x205F || u == 0x3000
}

/// The token kind of a character that is a token on its own.
pub open spec fn single_char_type(c: char) -> Option<TokenType> {
    if c == '+' {
        Some(TokenType::Plus)
    } else if c == '-' {
        Some(TokenType::Minus)
    } else if c == '*' {
        Some(TokenType::Asterisk)
    } else if c == '/' {
        Some(TokenType::Slash)
    } else if c == ',' {
        Some(TokenType::Comma)
    } else if c == ';' {
        Some(TokenType::Semicolon)
    } else if c == '(' {
        Some(TokenType::LeftParenthesis)
    } else if c == ')' {
        Some(TokenType::RightParenthesis)
    } else if c == '{' {
        Some(TokenType::LeftBrace)
    } else if c == '}' {
        Some(TokenType::RightBrace)
    } else if c == '[' {
        Some(TokenType::LeftBracket)
    } else if c == ']' {
        Some(TokenType::RightBracket)
    } else if c == '%' {
        Some(TokenType::Modulo)
    } else if c == '^' {
        Some(TokenType::Power)
    } else if c == '&' {
        Some(TokenType::BitAnd)
    } else if c == '|' {
        Some(TokenType::BitOr)
    } else if c == '~' {
        Some(TokenType::BitNot)
    } else {
        None
    }
}

fn single_char_token(c: char) -> (r: Option<TokenType>)
    ensures
        r == single_char_type(c),
{
    match c {
        '+' => Some(TokenType::Plus),
        '-' => Some(TokenType::Minus),
        '*' => Some(TokenType::Asterisk),
        '/' => Some(TokenType::Slash),
        ',' => Some(TokenType::Comma),
        ';' => Some(TokenType::Semicolon),
        '(' => Some(TokenType::LeftParenthesis),
        ')' => Some(TokenType::RightParenthesis),
        '{' => Some(TokenType::LeftBrace),
        '}' => Some(TokenType::RightBrace),
        '[' => Some(TokenType::LeftBracket),
        ']' => Some(TokenType::RightBracket),
        '%' => Some(TokenType::Modulo),
        '^' => Some(TokenType::Power),
        '&' => Some(TokenType::BitAnd),
        '|' => Some(TokenType::BitOr),
        '~' => Some(TokenType::BitNot),
        _ => None,
    }
}

/// `String::push` appends one character.
pub assume_specification[ std::string::String::push ](s: &mut std::string::String, ch: char)
    ensures
        final(s)@ == old(s)@.push(ch),
;

/// The string made of the characters `cs`.
pub fn text(cs: &[char]) -> (s: String)
    ensures
        s@ == cs@,
{
    let mut s = String::new();
    let mut i: usize = 0;
    while i < cs.len()
        invariant
            0 <= i <= cs@.len(),
            s@ == cs@.subrange(0, i as int),
        decreases cs@.len() - i,
    {
        s.push(cs[i]);
        i = i + 1;
        assert(s@ =~= cs@.subrange(0, i as int));
    }
    assert(cs@ =~= cs@.subrange(0, cs@.len() as int));
    s
}

/// The string made of the characters `v[start..end]`.
fn text_range(v: &Vec<char>, start: usize, end: usize) -> (s: String)
    requires
        start <= end <= v@.len(),
    ensures
        s@ == v@.subrange(start as int, end as int),
{
    let mut s = String::new();
    let mut i: usize = start;
    while i < end
        invariant
            start <= i <= end <= v@.len(),
            s@ == v@.subrange(start as int, i as int),
        decreases end - i,
    {
        s.push(v[i]);
        i = i + 1;
        assert(s@ =~= v@.subrange(start as int, i as int));
    }
    s
}

/// The characters of `s`, one after the other.
pub(crate) fn chars_of(s: &str) -> (v: Vec<char>)
    ensures
        v@ == s@,
{
    let n = s.unicode_len();
    let mut v: Vec<char> = Vec::new();
    let mut i: usize = 0;
    while i < n
        invariant
            n == s@.len(),
            0 <= i <= n,
            v@ == s@.subrange(0, i as int),
        decreases n - i,
    {
        v.push(s.get_char(i));
        i = i + 1;
        assert(v@ =~= s@.subrange(0, i as int));
    }
    assert(v@ =~= s@);
    v
}

/// The text of the token returned for an unterminated string.
pub open spec fn unterminated_text() -> Seq<char> {
    seq!['u', 'n', 't', 'e', 'r', 'm', 'i', 'n', 'a', 't', 'e', 'd', ' ', 's', 't', 'r', 'i', 'n', 'g']
}

/// A token model.
pub open spec fn tm(ty: TokenType, lit: Seq<char>) -> TokenModel {
    TokenModel { ty, lit }
}

/// The state of a lexer: the source, the index of the current character,
/// the line and column counters, the options and the places where a block
/// comment was left open.
pub struct LexState {
    pub input: Seq<char>,
    pub position: usize,
    pub line: usize,
    pub column: usize,
    pub allow_comments: bool,
    pub delimiters: Seq<char>,
    pub unterminated: Seq<(usize, usize)>,
}

impl LexState {
    /// The current character (`'\0'` past the end).
    pub open spec fn ch(self) -> char {
        char_at(self.input, self.position as int)
    }

    /// The character after the current one (`'\0'` past the end).
    pub open spec fn peek(self) -> char {
        char_at(self.input, sat_inc(self.position) as int)
    }

    /// How many characters of the source are still ahead, the current one included.
    pub open spec fn remaining(self) -> nat {
        if self.position < self.input.len() {
            (self.input.len() - self.position) as nat
        } else {
            0
        }
    }

    /// Moves to the next character, counting lines and columns.
    pub open spec fn advance(self) -> LexState {
        let p = sat_inc(self.position);
        let c = char_at(self.input, p as int);
        LexState {
            position: p,
            line: if c == '\n' {
                sat_inc(self.line)
            } else {
                self.line
            },
            column: if c == '\n' {
                0
            } else {
                sat_inc(self.column)
            },
            ..self
        }
    }

    /// The state a lexer starts in: at the first character of `input`.
    pub open spec fn start(input: Seq<char>, allow_comments: bool, delimiters: Seq<char>) -> LexState {
        let c = char_at(input, 0);
        LexState {
            input,
            position: 0,
            line: if c == '\n' {
                2
            } else {
                1
            },
            column: if c == '\n' {
                0
            } else {
                1
            },
            allow_comments,
            delimiters,
            unterminated: Seq::empty(),
        }
    }

    /// Skips characters with the `White_Space` property.
    pub open spec fn skip_spaces(self) -> LexState
        decreases self.remaining(),
        when self.input.len() < usize::MAX
    {
        if is_whitespace(self.ch()) {
            self.advance().skip_spaces()
        } else {
            self
        }
    }

    /// Skips to the end of the line (to the `'\n'` or the end of the source).
    pub open spec fn skip_line(self) -> LexState
        decreases self.remaining(),
        when self.input.len() < usize::MAX
    {
        if self.ch() != '\n' && self.ch() != '\0' {
            self.advance().skip_line()
        } else {
            self
        }
    }

    /// Skips to the `*/` that closes a block comment (or the end of the source).
    pub open spec fn skip_block(self) -> LexState
        decreases self.remaining(),
        when self.input.len() < usize::MAX
    {
        if (self.ch() != '*' || self.peek() != '/') && self.ch() != '\0' {
            self.advance().skip_block()
        } else {
            self
        }
    }

    /// A line comment starts at the current character.
    pub open spec fn at_line_comment(self) -> bool {
        self.ch() == '/' && self.peek() == '/'
    }

    /// A block comment starts at the current character.
    pub open spec fn at_block_comment(self) -> bool {
        self.ch() == '/' && self.peek() == '*'
    }

    /// The state after a block comment that starts at the current character:
    /// past its `*/`, or at the end of the source with the open comment's
    /// line and column recorded.
    pub open spec fn after_block(self) -> LexState {
        let s = self.advance().advance().skip_block();
        if s.ch() == '*' {
            s.advance().advance()
        } else {
            LexState { unterminated: s.unterminated.push((s.line, s.column)), ..s }
        }
    }

    /// Skips whitespace and, where comments are allowed, comments.
    pub open spec fn skip_whitespace(self) -> LexState
        decreases self.remaining(),
        when self.input.len() < usize::MAX
    {
        let s = self.skip_spaces();
        if !s.allow_comments {
            s
        } else if s.at_line_comment() {
            proof {
                lemma_skip_spaces_remaining(self);
                lemma_skip_line_remaining(s);
            }
            s.skip_line().skip_whitespace()
        } else if s.at_block_comment() {
            proof {
                lemma_skip_spaces_remaining(self);
                lemma_after_block_remaining(s);
            }
            s.after_block().skip_whitespace()
        } else {
            s
        }
    }

    /// Skips while the current character satisfies `is_letter`.
    pub open spec fn skip_letters(self) -> LexState
        decreases self.remaining(),
        when self.input.len() < usize::MAX
    {
        if self.position < self.input.len() && is_letter(self.ch()) {
            self.advance().skip_letters()
        } else {
            self
        }
    }

    /// Skips decimal digits.
    pub open spec fn skip_digits(self) -> LexState
        decreases self.remaining(),
        when self.input.len() < usize::MAX
    {
        if is_digit(self.ch()) {
            self.advance().skip_digits()
        } else {
            self
        }
    }

    /// Skips hexadecimal digits.
    pub open spec fn skip_hex(self) -> LexState
        decreases self.remaining(),
        when self.input.len() < usize::MAX
    {
        if is_hex_digit(self.ch()) {
            self.advance().skip_hex()
        } else {
            self
        }
    }

    /// Skips binary digits.
    pub open spec fn skip_binary(self) -> LexState
        decreases self.remaining(),
        when self.input.len() < usize::MAX
    {
        if is_binary_digit(self.ch()) {
            self.advance().skip_binary()
        } else {
            self
        }
    }

    /// Skips to the closing delimiter `d` of a string (or the end of the source).
    pub open spec fn skip_string(self, d: char) -> LexState
        decreases self.remaining(),
        when self.input.len() < usize::MAX
    {
        if self.ch() != d && self.ch() != '\0' {
            self.advance().skip_string(d)
        } else {
            self
        }
    }

    /// The characters from index `start` up to the current one (exclusive).
    pub open spec fn since(self, start: usize) -> Seq<char> {
        self.input.subrange(start as int, self.position as int)
    }

    /// A number at the current character: its text and its kind, and the
    /// state after it.
    pub open spec fn number(self) -> (Seq<char>, TokenType, LexState) {
        if self.ch() == '0' && (self.peek() == 'x' || self.peek() == 'X') {
            let s = self.advance().advance().skip_hex();
            (s.since(self.position), TokenType::Int, s)
        } else if self.ch() == '0' && (self.peek() == 'b' || self.peek() == 'B') {
            let s = self.advance().advance().skip_binary();
            (s.since(self.position), TokenType::Int, s)
        } else {
            let s = self.skip_digits();
            if s.ch() == '.' {
                let t = s.advance().skip_digits();
                (t.since(self.position), TokenType::Float, t)
            } else {
                (s.since(self.position), TokenType::Int, s)
            }
        }
    }

    /// An operator that is `single` alone and `double` when followed by `next`.
    pub open spec fn two_char(self, next: char, single: TokenType, double: TokenType) -> (
        TokenModel,
        LexState,
    ) {
        if self.peek() == next {
            let s = self.advance();
            (tm(double, seq![self.ch(), s.ch()]), s.advance())
        } else {
            (tm(single, seq![self.ch()]), self.advance())
        }
    }

    /// The token at the current character, with whitespace and comments
    /// already skipped, and the state after it.
    pub open spec fn scan(self) -> (TokenModel, LexState) {
        let c = self.ch();
        if c == '=' {
            self.two_char('=', TokenType::Assign, TokenType::Equal)
        } else if c == '!' {
            self.two_char('=', TokenType::Not, TokenType::NotEqual)
        } else if c == '<' {
            self.two_char('=', TokenType::LessThan, TokenType::LessEqual)
        } else if c == '>' {
            self.two_char('=', TokenType::GreaterThan, TokenType::GreaterEqual)
        } else if c == '&' {
            if self.peek() == '&' {
                (tm(TokenType::And, seq!['&', '&']), self.advance().advance())
            } else {
                (tm(TokenType::Illegal, seq![c]), self.advance())
            }
        } else if c == '|' {
            if self.peek() == '|' {
                (tm(TokenType::Or, seq!['|', '|']), self.advance().advance())
            } else {
                (tm(TokenType::Illegal, seq![c]), self.advance())
            }
        } else if c == '"' || c == '\'' {
            if self.delimiters.contains(c) {
                let s = self.advance();
                let e = s.skip_string(c);
                if e.ch() == '\0' {
                    (tm(TokenType::Illegal, unterminated_text()), e)
                } else {
                    (tm(TokenType::String, e.since(s.position)), e.advance())
                }
            } else {
                (tm(TokenType::Illegal, seq![c]), self.advance())
            }
        } else if c == '.' {
            if is_digit(self.peek()) {
                let s = self.advance();
                if !is_digit(s.ch()) {
                    (tm(TokenType::Illegal, seq!['.']), s.advance())
                } else {
                    let e = s.skip_digits();
                    (tm(TokenType::Float, e.since(self.position)), e.advance())
                }
            } else {
                (tm(TokenType::Illegal, seq!['.']), self.advance())
            }
        } else if c == '\0' {
            (tm(TokenType::Eof, Seq::empty()), self.advance())
        } else if is_letter(c) {
            let e = self.skip_letters();
            let w = e.since(self.position);
            (tm(keyword_type(w), w), e)
        } else if is_digit(c) {
            let (lit, ty, e) = self.number();
            (tm(ty, lit), e)
        } else if single_char_type(c) is Some {
            (tm(single_char_type(c).unwrap(), seq![c]), self.advance())
        } else {
            (tm(TokenType::Illegal, seq![c]), self.advance())
        }
    }

    /// The next token and the state after it.
    pub open spec fn next_token(self) -> (TokenModel, LexState) {
        self.skip_whitespace().scan()
    }
}

pub proof fn lemma_skip_spaces_remaining(s: LexState)
    requires
        s.input.len() < usize::MAX,
    ensures
        s.skip_spaces().remaining() <= s.remaining(),
        s.skip_spaces().input == s.input,
        s.skip_spaces().allow_comments == s.allow_comments,
    decreases s.remaining(),
{
    if is_whitespace(s.ch()) {
        lemma_skip_spaces_remaining(s.advance());
    }
}

pub proof fn lemma_skip_line_remaining(s: LexState)
    requires
        s.input.len() < usize::MAX,
    ensures
        s.skip_line().remaining() <= s.remaining(),
        s.skip_line().input == s.input,
        s.skip_line().allow_comments == s.allow_comments,
        s.ch() != '\n' && s.ch() != '\0' ==> s.skip_line().remaining() < s.remaining(),
    decreases s.remaining(),
{
    if s.ch() != '\n' && s.ch() != '\0' {
        lemma_skip_line_remaining(s.advance());
    }
}

pub proof fn lemma_skip_block_remaining(s: LexState)
    requires
        s.input.len() < usize::MAX,
    ensures
        s.skip_block().remaining() <= s.remaining(),
        s.skip_block().input == s.input,
        s.skip_block().allow_comments == s.allow_comments,
    decreases s.remaining(),
{
    if (s.ch() != '*' || s.peek() != '/') && s.ch() != '\0' {
        lemma_skip_block_remaining(s.advance());
    }
}

pub proof fn lemma_after_block_remaining(s: LexState)
    requires
        s.at_block_comment(),
        s.input.len() < usize::MAX,
    ensures
        s.after_block().input == s.input,
        s.after_block().allow_comments == s.allow_comments,
        s.after_block().remaining() < s.remaining(),
{
    lemma_skip_block_remaining(s.advance().advance());
}


/// `v` holds `c`.
fn contains_char(v: &Vec<char>, c: char) -> (r: bool)
    ensures
        r == v@.contains(c),
{
    let mut i: usize = 0;
    while i < v.len()
        invariant
            0 <= i <= v@.len(),
            forall|j: int| 0 <= j < i ==> v@[j] != c,
        decreases v@.len() - i,
    {
        if v[i] == c {
            assert(v@[i as int] == c);
            return true;
        }
        i = i + 1;
    }
    false
}

/// Once whitespace and comments are skipped, no comment starts at the
/// current character.
pub proof fn lemma_skip_whitespace_lands_on_token(s: LexState)
    requires
        s.input.len() < usize::MAX,
    ensures
        s.skip_whitespace().input == s.input,
        s.skip_whitespace().allow_comments == s.allow_comments,
        s.skip_whitespace().delimiters == s.delimiters,
        s.skip_whitespace().allow_comments ==> !s.skip_whitespace().at_line_comment(),
        s.skip_whitespace().allow_comments ==> !s.skip_whitespace().at_block_comment(),
        !is_whitespace(s.skip_whitespace().ch()),
    decreases s.remaining(),
{
    lemma_skip_spaces_facts(s);
    let t = s.skip_spaces();
    if !t.allow_comments {
    } else if t.at_line_comment() {
        lemma_skip_spaces_remaining(s);
        lemma_skip_line_remaining(t);
        lemma_skip_line_keeps(t);
        lemma_skip_whitespace_lands_on_token(t.skip_line());
    } else if t.at_block_comment() {
        lemma_skip_spaces_remaining(s);
        lemma_after_block_remaining(t);
        lemma_after_block_keeps(t);
        lemma_skip_whitespace_lands_on_token(t.after_block());
    }
}

pub proof fn lemma_skip_spaces_facts(s: LexState)
    requires
        s.input.len() < usize::MAX,
    ensures
        s.skip_spaces().input == s.input,
        s.skip_spaces().allow_comments == s.allow_comments,
        s.skip_spaces().delimiters == s.delimiters,
        !is_whitespace(s.skip_spaces().ch()),
    decreases s.remaining(),
{
    if is_whitespace(s.ch()) {
        lemma_skip_spaces_facts(s.advance());
    }
}

pub proof fn lemma_skip_line_keeps(s: LexState)
    requires
        s.input.len() < usize::MAX,
    ensures
        s.skip_line().delimiters == s.delimiters,
    decreases s.remaining(),
{
    if s.ch() != '\n' && s.ch() != '\0' {
        lemma_skip_line_keeps(s.advance());
    }
}

pub proof fn lemma_skip_block_keeps(s: LexState)
    requires
        s.input.len() < usize::MAX,
    ensures
        s.skip_block().delimiters == s.delimiters,
    decreases s.remaining(),
{
    if (s.ch() != '*' || s.peek() != '/') && s.ch() != '\0' {
        lemma_skip_block_keeps(s.advance());
    }
}

pub proof fn lemma_after_block_keeps(s: LexState)
    requires
        s.input.len() < usize::MAX,
    ensures
        s.after_block().delimiters == s.delimiters,
{
    lemma_skip_block_keeps(s.advance().advance());
}

pub proof fn lemma_advance_remaining(s: LexState)
    requires
        s.input.len() < usize::MAX,
    ensures
        s.advance().input == s.input,
        s.advance().allow_comments == s.allow_comments,
        s.advance().delimiters == s.delimiters,
        s.advance().remaining() <= s.remaining(),
        s.remaining() > 0 ==> s.advance().remaining() < s.remaining(),
{
}

pub proof fn lemma_skip_letters_remaining(s: LexState)
    requires
        s.input.len() < usize::MAX,
    ensures
        s.skip_letters().input == s.input,
        s.skip_letters().allow_comments == s.allow_comments,
        s.skip_letters().delimiters == s.delimiters,
        s.skip_letters().remaining() <= s.remaining(),
    decreases s.remaining(),
{
    if s.position < s.input.len() && is_letter(s.ch()) {
        lemma_skip_letters_remaining(s.advance());
    }
}

pub proof fn lemma_skip_digits_remaining(s: LexState)
    requires
        s.input.len() < usize::MAX,
    ensures
        s.skip_digits().input == s.input,
        s.skip_digits().allow_comments == s.allow_comments,
        s.skip_digits().delimiters == s.delimiters,
        s.skip_digits().remaining() <= s.remaining(),
    decreases s.remaining(),
{
    if is_digit(s.ch()) {
        lemma_skip_digits_remaining(s.advance());
    }
}

pub proof fn lemma_skip_hex_remaining(s: LexState)
    requires
        s.input.len() < usize::MAX,
    ensures
        s.skip_hex().input == s.input,
        s.skip_hex().allow_comments == s.allow_comments,
        s.skip_hex().delimiters == s.delimiters,
        s.skip_hex().remaining() <= s.remaining(),
    decreases s.remaining(),
{
    if is_hex_digit(s.ch()) {
        lemma_skip_hex_remaining(s.advance());
    }
}

pub proof fn lemma_skip_binary_remaining(s: LexState)
    requires
        s.input.len() < usize::MAX,
    ensures
        s.skip_binary().input == s.input,
        s.skip_binary().allow_comments == s.allow_comments,
        s.skip_binary().delimiters == s.delimiters,
        s.skip_binary().remaining() <= s.remaining(),
    decreases s.remaining(),
{
    if is_binary_digit(s.ch()) {
        lemma_skip_binary_remaining(s.advance());
    }
}

pub proof fn lemma_skip_string_remaining(s: LexState, d: char)
    requires
        s.input.len() < usize::MAX,
    ensures
        s.skip_string(d).input == s.input,
        s.skip_string(d).allow_comments == s.allow_comments,
        s.skip_string(d).delimiters == s.delimiters,
        s.skip_string(d).remaining() <= s.remaining(),
    decreases s.remaining(),
{
    if s.ch() != d && s.ch() != '\0' {
        lemma_skip_string_remaining(s.advance(), d);
    }
}

pub proof fn lemma_skip_whitespace_remaining(s: LexState)
    requires
        s.input.len() < usize::MAX,
    ensures
        s.skip_whitespace().remaining() <= s.remaining(),
    decreases s.remaining(),
{
    lemma_skip_spaces_remaining(s);
    let t = s.skip_spaces();
    if !t.allow_comments {
    } else if t.at_line_comment() {
        lemma_skip_line_remaining(t);
        lemma_skip_whitespace_remaining(t.skip_line());
    } else if t.at_block_comment() {
        lemma_after_block_remaining(t);
        lemma_skip_whitespace_remaining(t.after_block());
    }
}

/// Lexing makes progress: while source characters remain, each token
/// consumes at least one of them; once none remain, every token is `Eof`
/// and none ever will remain again.
pub proof fn lemma_next_token_progress(s: LexState)
    requires
        s.input.len() < usize::MAX,
    ensures
        s.next_token().1.input == s.input,
        s.next_token().1.allow_comments == s.allow_comments,
        s.next_token().1.delimiters == s.delimiters,
        s.remaining() > 0 ==> s.next_token().1.remaining() < s.remaining(),
        s.remaining() == 0 ==> s.next_token().1.remaining() == 0,
        s.remaining() == 0 ==> s.next_token().0.ty == TokenType::Eof,
{
    lemma_skip_whitespace_remaining(s);
    lemma_skip_whitespace_lands_on_token(s);
    let t = s.skip_whitespace();
    let c = t.ch();
    lemma_advance_remaining(t);
    lemma_advance_remaining(t.advance());
    if s.remaining() == 0 {
        lemma_skip_spaces_facts(s);
        assert(t.remaining() == 0);
        assert(c == '\0');
    }
    if c == '"' || c == '\'' {
        lemma_skip_string_remaining(t.advance(), c);
        lemma_advance_remaining(t.advance().skip_string(c));
    } else if c == '.' {
        lemma_skip_digits_remaining(t.advance());
        lemma_advance_remaining(t.advance().skip_digits());
    } else if is_letter(c) && c != '\0' {
        lemma_skip_letters_remaining(t.advance());
        assert(t.skip_letters() == t.advance().skip_letters());
    } else if is_digit(c) {
        lemma_skip_hex_remaining(t.advance().advance());
        lemma_skip_binary_remaining(t.advance().advance());
        lemma_skip_digits_remaining(t.advance());
        assert(t.skip_digits() == t.advance().skip_digits());
        lemma_skip_digits_remaining(t.skip_digits().advance());
        lemma_advance_remaining(t.skip_digits());
    }
}

/// A string opened by the delimiter `d` runs to the next `d`: skipping its
/// characters keeps the source, stops at a `d` (or at the end, or at a
/// `'\0'`), and passes only characters that are neither.
pub proof fn law_string_runs_to_its_delimiter(s: LexState, d: char)
    requires
        s.input.len() < usize::MAX,
    ensures
        s.skip_string(d).input == s.input,
        s.position <= s.skip_string(d).position,
        s.skip_string(d).ch() == d || s.skip_string(d).ch() == '\0',
        s.skip_string(d) == s || s.skip_string(d).position <= s.input.len(),
        forall|i: int|
            s.position <= i < s.skip_string(d).position ==> #[trigger] s.input[i] != d && s.input[i]
                != '\0',
    decreases s.remaining(),
{
    if s.ch() != d && s.ch() != '\0' {
        lemma_advance_remaining(s);
        law_string_runs_to_its_delimiter(s.advance(), d);
        assert(s.position < s.input.len());
        let t = s.advance();
        assert(t.position == s.position + 1);
        assert(t.input == s.input);
        assert forall|i: int| s.position <= i < s.skip_string(d).position implies #[trigger] s.input[i]
            != d && s.input[i] != '\0' by {
            if i > s.position {
                assert(t.position <= i < t.skip_string(d).position);
                assert(t.input[i] != d);
            } else {
                assert(s.input[i] == s.ch());
            }
        }
    } else {
        assert(s.skip_string(d) == s);
    }
}

/// A word runs over letters: skipping it keeps the source, passes only
/// letters, and stops at the end of the source or at a character that is not
/// a letter.
pub proof fn law_word_runs_over_letters(s: LexState)
    requires
        s.input.len() < usize::MAX,
    ensures
        s.skip_letters().input == s.input,
        s.position <= s.skip_letters().position,
        s.skip_letters().position >= s.input.len() || !is_letter(s.skip_letters().ch()),
        forall|i: int|
            s.position <= i < s.skip_letters().position ==> #[trigger] is_letter(s.input[i]),
    decreases s.remaining(),
{
    if s.position < s.input.len() && is_letter(s.ch()) {
        lemma_advance_remaining(s);
        law_word_runs_over_letters(s.advance());
        let t = s.advance();
        assert(t.position == s.position + 1);
        assert forall|i: int| s.position <= i < s.skip_letters().position implies #[trigger] is_letter(
            s.input[i],
        ) by {
            if i > s.position {
                assert(t.position <= i < t.skip_letters().position);
                assert(is_letter(t.input[i]));
            } else {
                assert(s.input[i] == s.ch());
            }
        }
    } else {
        assert(s.skip_letters() == s);
    }
}

/// A run of decimal digits: skipping it keeps the source, passes only digits,
/// and stops at a character that is not one.
pub proof fn law_digits_run_over_digits(s: LexState)
    requires
        s.input.len() < usize::MAX,
    ensures
        s.skip_digits().input == s.input,
        s.position <= s.skip_digits().position,
        !is_digit(s.skip_digits().ch()),
        forall|i: int|
            s.position <= i < s.skip_digits().position ==> #[trigger] is_digit(s.input[i]),
    decreases s.remaining(),
{
    if is_digit(s.ch()) {
        lemma_advance_remaining(s);
        law_digits_run_over_digits(s.advance());
        let t = s.advance();
        assert(s.position < s.input.len());
        assert(t.position == s.position + 1);
        assert forall|i: int| s.position <= i < s.skip_digits().position implies #[trigger] is_digit(
            s.input[i],
        ) by {
            if i > s.position {
                assert(t.position <= i < t.skip_digits().position);
                assert(is_digit(t.input[i]));
            } else {
                assert(s.input[i] == s.ch());
            }
        }
    } else {
        assert(s.skip_digits() == s);
    }
}

/// A two-character operator is read as one token exactly when its second
/// character follows the first: `==` is `Equal`, a lone `=` is `Assign`, and
/// likewise for `!=`, `<=` and `>=`.
pub proof fn law_two_char_operators(s: LexState)
    ensures
        s.ch() == '=' ==> s.scan().0.ty == (if s.peek() == '=' {
            TokenType::Equal
        } else {
            TokenType::Assign
        }),
        s.ch() == '!' ==> s.scan().0.ty == (if s.peek() == '=' {
            TokenType::NotEqual
        } else {
            TokenType::Not
        }),
        s.ch() == '<' ==> s.scan().0.ty == (if s.peek() == '=' {
            TokenType::LessEqual
        } else {
            TokenType::LessThan
        }),
        s.ch() == '>' ==> s.scan().0.ty == (if s.peek() == '=' {
            TokenType::GreaterEqual
        } else {
            TokenType::GreaterThan
        }),
{
}

/// The state after `k` tokens have been read from `s`.
pub open spec fn lex_after(s: LexState, k: nat) -> LexState
    decreases k,
{
    if k == 0 {
        s
    } else {
        lex_after(s, (k - 1) as nat).next_token().1
    }
}

proof fn lemma_lex_after(s: LexState, k: nat)
    requires
        s.input.len() < usize::MAX,
    ensures
        lex_after(s, k).input == s.input,
        lex_after(s, k).remaining() == 0 || lex_after(s, k).remaining() + k <= s.remaining(),
    decreases k,
{
    if k > 0 {
        lemma_lex_after(s, (k - 1) as nat);
        lemma_next_token_progress(lex_after(s, (k - 1) as nat));
    }
}

/// Lexing ends: of the first `n + 1` tokens read from a source with `n`
/// characters left, the last is `Eof` (every other token consumes at least
/// one character).
pub proof fn law_lexing_reaches_eof(s: LexState)
    requires
        s.input.len() < usize::MAX,
    ensures
        lex_after(s, s.remaining()).remaining() == 0,
        lex_after(s, s.remaining()).next_token().0.ty == TokenType::Eof,
{
    lemma_lex_after(s, s.remaining());
    lemma_next_token_progress(lex_after(s, s.remaining()));
}

/// At the end of the source, reading a token leaves the line where it is.
pub proof fn law_eof_keeps_line(s: LexState)
    requires
        s.input.len() < usize::MAX,
        s.remaining() == 0,
    ensures
        s.next_token().0.ty == TokenType::Eof,
        s.next_token().1.line == s.line,
        s.next_token().1.remaining() == 0,
{
    lemma_next_token_progress(s);
    lemma_skip_spaces_facts(s);
    assert(!is_whitespace(s.ch()));
    assert(s.skip_spaces() == s);
    assert(s.skip_whitespace() == s);
}

/// Splits source text into tokens, one at a time.
pub struct Lexer {
    input: Vec<char>,
    position: usize,
    read_position: usize,
    ch: char,
    pub line: usize,
    pub column: usize,
    config: Config,
    unterminated_comments: Vec<(usize, usize)>,
}

impl View for Lexer {
    type V = LexState;

    closed spec fn view(&self) -> LexState {
        LexState {
            input: self.input@,
            position: self.position,
            line: self.line,
            column: self.column,
            allow_comments: self.config.allow_comments,
            delimiters: self.config.string_delimiters@,
            unterminated: self.unterminated_comments@,
        }
    }
}

impl Lexer {
    /// The fields agree with the model.
    pub closed spec fn wf(&self) -> bool {
        &&& self.ch == self@.ch()
        &&& self.read_position == sat_inc(self.position)
        &&& self.input@.len() < usize::MAX
    }

    pub proof fn lemma_wf_ok(&self)
        requires
            self.wf(),
        ensures
            self@.input.len() < usize::MAX,
    {
    }

    /// A lexer at the first character of `input`.
    pub fn new(input: &str, config: Config) -> (l: Self)
        requires
            input@.len() < usize::MAX,
        ensures
            l.wf(),
            l@ == LexState::start(input@, config.allow_comments, config.string_delimiters@),
    {
        let chars = chars_of(input);
        let ch = if chars.len() > 0 {
            chars[0]
        } else {
            '\0'
        };
        let (line, column) = if ch == '\n' {
            (2, 0)
        } else {
            (1, 1)
        };
        Lexer {
            input: chars,
            position: 0,
            read_position: 1,
            ch,
            line,
            column,
            config,
            unterminated_comments: Vec::new(),
        }
    }

    /// The public field `line`: the line of the current character.
    pub fn line(&self) -> (r: usize)
        ensures
            r == self@.line,
    {
        self.line
    }

    /// The public field `column`: the column of the current character.
    pub fn column(&self) -> (r: usize)
        ensures
            r == self@.column,
    {
        self.column
    }

    /// Where block comments were left open: a line and a column for each.
    pub fn unterminated_comments(&self) -> (r: &Vec<(usize, usize)>)
        ensures
            r@ == self@.unterminated,
    {
        &self.unterminated_comments
    }

    fn read_current_character(&mut self)
        requires
            old(self).read_position == sat_inc(old(self).position),
            old(self).input@.len() < usize::MAX,
        ensures
            final(self).wf(),
            final(self)@ == old(self)@.advance(),
    {
        if self.read_position >= self.input.len() {
            self.ch = '\0';
        } else {
            self.ch = self.input[self.read_position];
        }
        self.position = self.read_position;
        self.read_position = inc(self.read_position);
        if self.ch == '\n' {
            self.line = inc(self.line);
            self.column = 0;
        } else {
            self.column = inc(self.column);
        }
    }

    fn peek_next_character(&self) -> (c: char)
        requires
            self.wf(),
        ensures
            c == self@.peek(),
    {
        if self.read_position >= self.input.len() {
            '\0'
        } else {
            self.input[self.read_position]
        }
    }

    fn skip_whitespace(&mut self)
        requires
            old(self).wf(),
        ensures
            final(self).wf(),
            final(self)@ == old(self)@.skip_whitespace(),
        decreases old(self)@.remaining(),
    {
        let ghost s0 = self@;
        while whitespace(self.ch)
            invariant
                self.wf(),
                self@.skip_spaces() == s0.skip_spaces(),
            decreases self@.remaining(),
        {
            self.read_current_character();
        }
        assert(self@ == s0.skip_spaces());
        if self.config.allow_comments {
            let ghost s1 = self@;
            if self.ch == '/' && self.peek_next_character() == '/' {
                while self.ch != '\n' && self.ch != '\0'
                    invariant
                        self.wf(),
                        self@.skip_line() == s1.skip_line(),
                    decreases self@.remaining(),
                {
                    self.read_current_character();
                }
                proof {
                    lemma_skip_spaces_remaining(s0);
                    lemma_skip_line_remaining(s1);
                }
                self.skip_whitespace();
                proof {
                    lemma_skip_line_remaining(s1);
                    lemma_skip_whitespace_lands_on_token(s1.skip_line());
                }
                assert(self@ == s0.skip_whitespace());
            }
            if self.ch == '/' && self.peek_next_character() == '*' {
                let ghost s2 = self@;
                assert(s2 == s1);
                self.read_current_character();
                self.read_current_character();
                let ghost s3 = self@;
                while (self.ch != '*' || self.peek_next_character() != '/') && self.ch != '\0'
                    invariant
                        self.wf(),
                        self@.skip_block() == s3.skip_block(),
                    decreases self@.remaining(),
                {
                    self.read_current_character();
                }
                if self.ch == '*' {
                    self.read_current_character();
                    self.read_current_character();
                } else {
                    self.unterminated_comments.push((self.line, self.column));
                }
                assert(self@ == s1.after_block());
                proof {
                    lemma_skip_spaces_remaining(s0);
                    lemma_after_block_remaining(s1);
                    lemma_after_block_keeps(s1);
                }
                self.skip_whitespace();
            }
        }
    }

    fn read_identifier(&mut self) -> (r: String)
        requires
            old(self).wf(),
            old(self).position < old(self)@.input.len(),
        ensures
            final(self).wf(),
            final(self)@ == old(self)@.skip_letters(),
            r@ == old(self)@.skip_letters().since(old(self).position),
    {
        let start = self.position;
        let ghost s0 = self@;
        while letter(self.ch)
            invariant
                self.wf(),
                start <= self.position <= self@.input.len(),
                self@.skip_letters() == s0.skip_letters(),
                self@.input == s0.input,
            decreases self@.remaining(),
        {
            self.read_current_character();
        }
        text_range(&self.input, start, self.position)
    }

    fn read_number(&mut self) -> (r: (String, TokenType))
        requires
            old(self).wf(),
            is_digit(old(self).ch),
        ensures
            final(self).wf(),
            (r.0@, r.1, final(self)@) == old(self)@.number(),
    {
        let start = self.position;
        let ghost s0 = self@;
        let mut token_type = TokenType::Int;
        if self.ch == '0' && (self.peek_next_character() == 'x' || self.peek_next_character() == 'X') {
            self.read_current_character();
            self.read_current_character();
            let ghost s1 = self@;
            while hex_digit(self.ch)
                invariant
                    self.wf(),
                    start <= self.position <= self@.input.len(),
                    self@.skip_hex() == s1.skip_hex(),
                    self@.input == s0.input,
                decreases self@.remaining(),
            {
                self.read_current_character();
            }
            let val = text_range(&self.input, start, self.position);
            return (val, TokenType::Int);
        }
        if self.ch == '0' && (self.peek_next_character() == 'b' || self.peek_next_character() == 'B') {
            self.read_current_character();
            self.read_current_character();
            let ghost s1 = self@;
            while binary_digit(self.ch)
                invariant
                    self.wf(),
                    start <= self.position <= self@.input.len(),
                    self@.skip_binary() == s1.skip_binary(),
                    self@.input == s0.input,
                decreases self@.remaining(),
            {
                self.read_current_character();
            }
            let val = text_range(&self.input, start, self.position);
            return (val, TokenType::Int);
        }
        while digit(self.ch)
            invariant
                self.wf(),
                start <= self.position <= self@.input.len(),
                self@.skip_digits() == s0.skip_digits(),
                self@.input == s0.input,
            decreases self@.remaining(),
        {
            self.read_current_character();
        }
        if self.ch == '.' {
            self.read_current_character();
            let ghost s1 = self@;
            while digit(self.ch)
                invariant
                    self.wf(),
                    start <= self.position <= self@.input.len(),
                    self@.skip_digits() == s1.skip_digits(),
                    self@.input == s0.input,
                decreases self@.remaining(),
            {
                self.read_current_character();
            }
            token_type = TokenType::Float;
        }
        let val = text_range(&self.input, start, self.position);
        (val, token_type)
    }

    fn match_two_char_token(
        &mut self,
        next_char: char,
        single_type: TokenType,
        double_type: TokenType,
    ) -> (tok: Token)
        requires
            old(self).wf(),
        ensures
            final(self).wf(),
            tok@ == old(self)@.two_char(next_char, single_type, double_type).0,
            final(self)@ == (if old(self)@.peek() == next_char {
                old(self)@.advance()
            } else {
                old(self)@
            }),
    {
        if self.peek_next_character() == next_char {
            let current = self.ch;
            self.read_current_character();
            let literal = text(&[current, self.ch]);
            assert(literal@ =~= seq![current, self.ch]);
            Token { token_type: double_type, literal }
        } else {
            let literal = text(&[self.ch]);
            assert(literal@ =~= seq![self.ch]);
            Token { token_type: single_type, literal }
        }
    }

    /// The next token; whitespace and (where allowed) comments before it are skipped.
    pub fn next_token(&mut self) -> (tok: Token)
        requires
            old(self).wf(),
        ensures
            final(self).wf(),
            (tok@, final(self)@) == old(self)@.next_token(),
    {
        self.skip_whitespace();
        let ghost s = self@;
        let c = self.ch;
        let tok = if c == '=' {
            self.match_two_char_token('=', TokenType::Assign, TokenType::Equal)
        } else if c == '!' {
            self.match_two_char_token('=', TokenType::Not, TokenType::NotEqual)
        } else if c == '<' {
            self.match_two_char_token('=', TokenType::LessThan, TokenType::LessEqual)
        } else if c == '>' {
            self.match_two_char_token('=', TokenType::GreaterThan, TokenType::GreaterEqual)
        } else if c == '&' {
            if self.peek_next_character() == '&' {
                self.read_current_character();
                let literal = text(&['&', '&']);
                assert(literal@ =~= seq!['&', '&']);
                Token { token_type: TokenType::And, literal }
            } else {
                let literal = text(&[c]);
                assert(literal@ =~= seq![c]);
                Token { token_type: TokenType::Illegal, literal }
            }
        } else if c == '|' {
            if self.peek_next_character() == '|' {
                self.read_current_character();
                let literal = text(&['|', '|']);
                assert(literal@ =~= seq!['|', '|']);
                Token { token_type: TokenType::Or, literal }
            } else {
                let literal = text(&[c]);
                assert(literal@ =~= seq![c]);
                Token { token_type: TokenType::Illegal, literal }
            }
        } else if c == '"' || c == '\'' {
            if contains_char(&self.config.string_delimiters, c) {
                let start_delimiter = self.ch;
                self.read_current_character();
                let start = self.position;
                let ghost s1 = self@;
                while self.ch != start_delimiter && self.ch != '\0'
                    invariant
                        self.wf(),
                        start <= self.position <= self@.input.len(),
                        self@.skip_string(start_delimiter) == s1.skip_string(start_delimiter),
                        self@.input == s.input,
                    decreases self@.remaining(),
                {
                    self.read_current_character();
                }
                let mut tok = Token { token_type: TokenType::Illegal, literal: text(&[]) };
                if self.ch == '\0' {
                    tok.token_type = TokenType::Illegal;
                    tok.literal = text(
                        &[
                            'u',
                            'n',
                            't',
                            'e',
                            'r',
                            'm',
                            'i',
                            'n',
                            'a',
                            't',
                            'e',
                            'd',
                            ' ',
                            's',
                            't',
                            'r',
                            'i',
                            'n',
                            'g',
                        ],
                    );
                    assert(tok.literal@ =~= unterminated_text());
                } else {
                    tok.token_type = TokenType::String;
                    tok.literal = text_range(&self.input, start, self.position);
                }
                if self.ch != '\0' {
                    self.read_current_character();
                }
                return tok;
            }
            let literal = text(&[c]);
            assert(literal@ =~= seq![c]);
            Token { token_type: TokenType::Illegal, literal }
        } else if c == '.' {
            if digit(self.peek_next_character()) {
                let start = self.position;
                self.read_current_character();
                if !digit(self.ch) {
                    let literal = text(&['.']);
                    assert(literal@ =~= seq!['.']);
                    Token { token_type: TokenType::Illegal, literal }
                } else {
                    let ghost s1 = self@;
                    while digit(self.ch)
                        invariant
                            self.wf(),
                            start <= self.position <= self@.input.len(),
                            self@.skip_digits() == s1.skip_digits(),
                            self@.input == s.input,
                        decreases self@.remaining(),
                    {
                        self.read_current_character();
                    }
                    Token {
                        token_type: TokenType::Float,
                        literal: text_range(&self.input, start, self.position),
                    }
                }
            } else {
                let literal = text(&['.']);
                assert(literal@ =~= seq!['.']);
                Token { token_type: TokenType::Illegal, literal }
            }
        } else if c == '\0' {
            let literal = text(&[]);
            assert(literal@ =~= Seq::<char>::empty());
            Token { token_type: TokenType::Eof, literal }
        } else {
            if letter(c) {
                let literal = self.read_identifier();
                let token_type = lookup_identifier(literal.as_str());
                return Token { token_type, literal };
            } else if digit(c) {
                let (literal, token_type) = self.read_number();
                return Token { token_type, literal };
            } else if let Some(tok_type) = single_char_token(c) {
                let literal = text(&[c]);
                assert(literal@ =~= seq![c]);
                Token { token_type: tok_type, literal }
            } else {
                let literal = text(&[c]);
                assert(literal@ =~= seq![c]);
                Token { token_type: TokenType::Illegal, literal }
            }
        };
        self.read_current_character();
        tok
    }
} // impl Lexer

} // verus!
