use vstd::prelude::*;

use crate::ast::{
    copy_token,
    lemma_exprs_model_push, lemma_idents_model_push, lemma_stmts_model_push, opt_expr_model,
    opt_stmt_box_model, block_model, expr_model, exprs_model, idents_model, opt_block_model, opt_stmt_model,
    stmts_model, BlockModel, BlockStatement, ExprModel, Expression, IdentModel, Identifier,
    Program, Statement, StmtModel,
};
use crate::double::{double_from_text, double_parse};
use crate::lexer::{chars_of, lemma_next_token_progress, LexState, Lexer};
use crate::token::{precedence_of, Precedence, Token, TokenModel, TokenType};

verus! {

// ---------------------------------------------------------------------------
// Names and messages
/// The name of a token kind, as `{:?}` prints it.
pub open spec fn kind_name(t: TokenType) -> Seq<char> {
    match t {
        TokenType::Illegal => "Illegal"@,
        TokenType::Eof => "Eof"@,
        TokenType::Identifier => "Identifier"@,
        TokenType::Float => "Float"@,
        TokenType::Int => "Int"@,
        TokenType::String => "String"@,
        TokenType::Bool => "Bool"@,
        TokenType::UnterminatedString => "UnterminatedString"@,
        TokenType::Assign => "Assign"@,
        TokenType::Plus => "Plus"@,
        TokenType::Minus => "Minus"@,
        TokenType::Asterisk => "Asterisk"@,
        TokenType::Slash => "Slash"@,
        TokenType::Modulo => "Modulo"@,
        TokenType::Power => "Power"@,
        TokenType::BitAnd => "BitAnd"@,
        TokenType::BitOr => "BitOr"@,
        TokenType::BitNot => "BitNot"@,
        TokenType::And => "And"@,
        TokenType::Or => "Or"@,
        TokenType::LessThan => "LessThan"@,
        TokenType::GreaterThan => "GreaterThan"@,
        TokenType::LessEqual => "LessEqual"@,
        TokenType::GreaterEqual => "GreaterEqual"@,
        TokenType::Equal => "Equal"@,
        TokenType::Not => "Not"@,
        TokenType::NotEqual => "NotEqual"@,
        TokenType::Comma => "Comma"@,
        TokenType::Semicolon => "Semicolon"@,
        TokenType::LeftParenthesis => "LeftParenthesis"@,
        TokenType::RightParenthesis => "RightParenthesis"@,
        TokenType::LeftBrace => "LeftBrace"@,
        TokenType::RightBrace => "RightBrace"@,
        TokenType::LeftBracket => "LeftBracket"@,
        TokenType::RightBracket => "RightBracket"@,
        TokenType::Function => "Function"@,
        TokenType::True => "True"@,
        TokenType::False => "False"@,
        TokenType::If => "If"@,
        TokenType::Else => "Else"@,
        TokenType::While => "While"@,
        TokenType::For => "For"@,
        TokenType::Break => "Break"@,
        TokenType::Continue => "Continue"@,
        TokenType::Return => "Return"@,
        TokenType::Const => "Const"@,
        TokenType::Type => "Type"@,
    }
}

/// The name of a token kind, as `{:?}` prints it.
pub fn kind_name_of(t: TokenType) -> (r: &'static str)
    ensures
        r@ == kind_name(t),
{
    match t {
        TokenType::Illegal => "Illegal",
        TokenType::Eof => "Eof",
        TokenType::Identifier => "Identifier",
        TokenType::Float => "Float",
        TokenType::Int => "Int",
        TokenType::String => "String",
        TokenType::Bool => "Bool",
        TokenType::UnterminatedString => "UnterminatedString",
        TokenType::Assign => "Assign",
        TokenType::Plus => "Plus",
        TokenType::Minus => "Minus",
        TokenType::Asterisk => "Asterisk",
        TokenType::Slash => "Slash",
        TokenType::Modulo => "Modulo",
        TokenType::Power => "Power",
        TokenType::BitAnd => "BitAnd",
        TokenType::BitOr => "BitOr",
        TokenType::BitNot => "BitNot",
        TokenType::And => "And",
        TokenType::Or => "Or",
        TokenType::LessThan => "LessThan",
        TokenType::GreaterThan => "GreaterThan",
        TokenType::LessEqual => "LessEqual",
        TokenType::GreaterEqual => "GreaterEqual",
        TokenType::Equal => "Equal",
        TokenType::Not => "Not",
        TokenType::NotEqual => "NotEqual",
        TokenType::Comma => "Comma",
        TokenType::Semicolon => "Semicolon",
        TokenType::LeftParenthesis => "LeftParenthesis",
        TokenType::RightParenthesis => "RightParenthesis",
        TokenType::LeftBrace => "LeftBrace",
        TokenType::RightBrace => "RightBrace",
        TokenType::LeftBracket => "LeftBracket",
        TokenType::RightBracket => "RightBracket",
        TokenType::Function => "Function",
        TokenType::True => "True",
        TokenType::False => "False",
        TokenType::If => "If",
        TokenType::Else => "Else",
        TokenType::While => "While",
        TokenType::For => "For",
        TokenType::Break => "Break",
        TokenType::Continue => "Continue",
        TokenType::Return => "Return",
        TokenType::Const => "Const",
        TokenType::Type => "Type",
    }
}

/// The message recorded when the next token is not the one expected.
pub open spec fn expected_msg(t: TokenType, got: TokenType) -> Seq<char> {
    "expected next token to be "@ + kind_name(t) + ", got "@ + kind_name(got) + " instead"@
}

/// The message of an expression that cannot start with a token of kind `t`.
pub open spec fn no_prefix_msg(t: TokenType) -> Seq<char> {
    "no prefix parse function for "@ + kind_name(t) + " found"@
}

/// The message of an integer literal out of range. (The literal is quoted as
/// `{:?}` quotes it; the characters of an integer token need no escaping.)
pub open spec fn int_error_msg(lit: Seq<char>) -> Seq<char> {
    "could not parse \""@ + lit + "\" as integer"@
}

/// The message of a float literal that does not read as a double.
pub open spec fn float_error_msg(lit: Seq<char>) -> Seq<char> {
    "could not parse \""@ + lit + "\" as float"@
}

fn float_error_message(lit: &String) -> (s: String)
    ensures
        s@ == float_error_msg(lit@),
{
    let mut s = String::from_str("could not parse \"");
    s.append(lit.as_str());
    s.append("\" as float");
    s
}

fn expected_message(t: TokenType, got: TokenType) -> (s: String)
    ensures
        s@ == expected_msg(t, got),
{
    let mut s = String::from_str("expected next token to be ");
    s.append(kind_name_of(t));
    s.append(", got ");
    s.append(kind_name_of(got));
    s.append(" instead");
    s
}

fn no_prefix_message(t: TokenType) -> (s: String)
    ensures
        s@ == no_prefix_msg(t),
{
    let mut s = String::from_str("no prefix parse function for ");
    s.append(kind_name_of(t));
    s.append(" found");
    s
}

fn int_error_message(lit: &String) -> (s: String)
    ensures
        s@ == int_error_msg(lit@),
{
    let mut s = String::from_str("could not parse \"");
    s.append(lit.as_str());
    s.append("\" as integer");
    s
}

// ---------------------------------------------------------------------------
// Integer literals
/// The value of a digit character (letters count from ten), or 99.
pub open spec fn digit_value(c: char) -> int {
    let u = c as u32;
    if '0' as u32 <= u <= '9' as u32 {
        u - '0' as u32
    } else if 'a' as u32 <= u <= 'z' as u32 {
        u - 'a' as u32 + 10
    } else if 'A' as u32 <= u <= 'Z' as u32 {
        u - 'A' as u32 + 10
    } else {
        99
    }
}

/// Every character of `s` is a digit in base `radix`.
pub open spec fn digits_valid(s: Seq<char>, radix: int) -> bool {
    forall|i: int| 0 <= i < s.len() ==> #[trigger] digit_value(s[i]) < radix
}

/// The number the digits `s` write in base `radix`.
pub open spec fn digits_value(s: Seq<char>, radix: int) -> int
    decreases s.len(),
{
    if s.len() == 0 {
        0
    } else {
        digits_value(s.drop_last(), radix) * radix + digit_value(s.last())
    }
}

/// What `i64::from_str_radix(s, radix)` gives: an optional sign, then at
/// least one digit, the value in the range of `i64`.
pub open spec fn from_str_radix(s: Seq<char>, radix: int) -> Option<i64> {
    if s.len() == 0 {
        None
    } else if s[0] == '+' || s[0] == '-' {
        let d = s.drop_first();
        if d.len() == 0 || !digits_valid(d, radix) {
            None
        } else if s[0] == '+' {
            if digits_value(d, radix) <= i64::MAX {
                Some(digits_value(d, radix) as i64)
            } else {
                None
            }
        } else {
            if -digits_value(d, radix) >= i64::MIN {
                Some((-digits_value(d, radix)) as i64)
            } else {
                None
            }
        }
    } else if digits_valid(s, radix) && digits_value(s, radix) <= i64::MAX {
        Some(digits_value(s, radix) as i64)
    } else {
        None
    }
}

/// The value of an integer literal: `0x`/`0X` and `0b`/`0B` prefixes (with
/// at least one character after them) select base 16 and base 2, anything
/// else is read in base 10.
pub open spec fn int_literal_value(lit: Seq<char>) -> Option<i64> {
    if lit.len() > 2 && lit[0] == '0' && (lit[1] == 'x' || lit[1] == 'X') {
        from_str_radix(lit.subrange(2, lit.len() as int), 16)
    } else if lit.len() > 2 && lit[0] == '0' && (lit[1] == 'b' || lit[1] == 'B') {
        from_str_radix(lit.subrange(2, lit.len() as int), 2)
    } else {
        from_str_radix(lit, 10)
    }
}

pub proof fn lemma_digits_value_nonneg(s: Seq<char>, radix: int)
    requires
        radix >= 1,
        digits_valid(s, radix),
    ensures
        digits_value(s, radix) >= 0,
    decreases s.len(),
{
    if s.len() > 0 {
        assert(digits_valid(s.drop_last(), radix)) by {
            assert forall|i: int| 0 <= i < s.drop_last().len() implies #[trigger] digit_value(
                s.drop_last()[i],
            ) < radix by {
                assert(s.drop_last()[i] == s[i]);
            }
        }
        lemma_digits_value_nonneg(s.drop_last(), radix);
        let v = digits_value(s.drop_last(), radix);
        assert(v * radix >= 0) by (nonlinear_arith)
            requires
                v >= 0,
                radix >= 1,
        ;
        assert(digit_value(s[s.len() - 1]) < radix);
    }
}

/// The value of a prefix of a digit string is at most the value of the whole.
pub proof fn lemma_digits_value_prefix(s: Seq<char>, i: int, radix: int)
    requires
        radix >= 1,
        digits_valid(s, radix),
        0 <= i <= s.len(),
    ensures
        digits_value(s.take(i), radix) <= digits_value(s, radix),
    decreases s.len(),
{
    if i < s.len() {
        let d = s.drop_last();
        assert(digits_valid(d, radix)) by {
            assert forall|j: int| 0 <= j < d.len() implies #[trigger] digit_value(d[j]) < radix by {
                assert(d[j] == s[j]);
            }
        }
        lemma_digits_value_prefix(d, i, radix);
        assert(d.take(i) =~= s.take(i));
        lemma_digits_value_nonneg(d, radix);
        let v = digits_value(d, radix);
        assert(v <= v * radix) by (nonlinear_arith)
            requires
                v >= 0,
                radix >= 1,
        ;
        assert(digit_value(s[s.len() - 1]) >= 0);
    } else {
        assert(s.take(i) =~= s);
    }
}

fn digit_of(c: char) -> (d: u32)
    ensures
        d as int == digit_value(c),
{
    let u = c as u32;
    if '0' as u32 <= u && u <= '9' as u32 {
        u - '0' as u32
    } else if 'a' as u32 <= u && u <= 'z' as u32 {
        u - 'a' as u32 + 10
    } else if 'A' as u32 <= u && u <= 'Z' as u32 {
        u - 'A' as u32 + 10
    } else {
        99
    }
}

/// The magnitude written by the digits `s[start..]` in base `radix`, when
/// it is at most `bound`.
fn digits_magnitude(s: &Vec<char>, start: usize, radix: u32, bound: i128) -> (r: Option<i128>)
    requires
        start <= s@.len(),
        2 <= radix <= 16,
        0 <= bound <= 0x8000_0000_0000_0000,
    ensures
        ({
            let d = s@.subrange(start as int, s@.len() as int);
            match r {
                Some(v) => digits_valid(d, radix as int) && v == digits_value(d, radix as int)
                    && 0 <= v <= bound,
                None => !digits_valid(d, radix as int) || digits_value(d, radix as int) > bound,
            }
        }),
{
    let ghost d = s@.subrange(start as int, s@.len() as int);
    let mut v: i128 = 0;
    let mut i: usize = start;
    while i < s.len()
        invariant
            start <= i <= s@.len(),
            d == s@.subrange(start as int, s@.len() as int),
            2 <= radix <= 16,
            0 <= bound <= 0x8000_0000_0000_0000,
            digits_valid(d.take(i - start), radix as int),
            v == digits_value(d.take(i - start), radix as int),
            0 <= v <= bound,
        decreases s@.len() - i,
    {
        let dv = digit_of(s[i]);
        if dv >= radix {
            assert(d[i - start] == s@[i as int]);
            return None;
        }
        let ghost k = i - start;
        assert(d.take(k + 1).drop_last() =~= d.take(k));
        assert(d.take(k + 1).last() == s@[i as int]);
        assert(v * (radix as i128) <= 0x8000_0000_0000_0000 * 16) by (nonlinear_arith)
            requires
                0 <= v <= 0x8000_0000_0000_0000,
                2 <= radix <= 16,
        ;
        v = v * (radix as i128) + dv as i128;
        i = i + 1;
        assert(digits_valid(d.take(i - start), radix as int)) by {
            assert forall|j: int| 0 <= j < d.take(i - start).len() implies #[trigger] digit_value(
                d.take(i - start)[j],
            ) < radix by {
                if j < k {
                    assert(d.take(i - start)[j] == d.take(k)[j]);
                }
            }
        }
        if v > bound {
            proof {
                if digits_valid(d, radix as int) {
                    lemma_digits_value_prefix(d, i - start, radix as int);
                }
            }
            return None;
        }
    }
    assert(d.take(i - start) =~= d);
    Some(v)
}

/// `i64::from_str_radix(s[start..], radix)`.
fn parse_radix(s: &Vec<char>, start: usize, radix: u32) -> (r: Option<i64>)
    requires
        start <= s@.len(),
        2 <= radix <= 16,
    ensures
        r == from_str_radix(s@.subrange(start as int, s@.len() as int), radix as int),
{
    let ghost t = s@.subrange(start as int, s@.len() as int);
    if start >= s.len() {
        return None;
    }
    if s[start] == '+' || s[start] == '-' {
        assert(t.drop_first() =~= s@.subrange(start + 1, s@.len() as int));
        if start + 1 >= s.len() {
            return None;
        }
        if s[start] == '+' {
            match digits_magnitude(s, start + 1, radix, 0x7fff_ffff_ffff_ffff) {
                Some(v) => Some(v as i64),
                None => None,
            }
        } else {
            match digits_magnitude(s, start + 1, radix, 0x8000_0000_0000_0000) {
                Some(v) => Some((-v) as i64),
                None => None,
            }
        }
    } else {
        match digits_magnitude(s, start, radix, 0x7fff_ffff_ffff_ffff) {
            Some(v) => Some(v as i64),
            None => None,
        }
    }
}

/// The value of an integer literal (see `int_literal_value`).
pub fn parse_int_literal(literal: &String) -> (r: Option<i64>)
    ensures
        r == int_literal_value(literal@),
{
    let cs = chars_of(literal.as_str());
    if cs.len() > 2 && cs[0] == '0' && (cs[1] == 'x' || cs[1] == 'X') {
        parse_radix(&cs, 2, 16)
    } else if cs.len() > 2 && cs[0] == '0' && (cs[1] == 'b' || cs[1] == 'B') {
        parse_radix(&cs, 2, 2)
    } else {
        assert(cs@.subrange(0, cs@.len() as int) =~= cs@);
        parse_radix(&cs, 0, 10)
    }
}


// ---------------------------------------------------------------------------
// The parser's state
/// The state of a parser: its lexer, the current and the next token, and the
/// errors recorded so far.
pub struct PState {
    pub lex: LexState,
    pub cur: TokenModel,
    pub peek: TokenModel,
    pub errors: Seq<Seq<char>>,
}

/// 1 when a token is not `Eof`, else 0.
pub open spec fn live(t: TokenModel) -> nat {
    if t.ty != TokenType::Eof {
        1
    } else {
        0
    }
}

impl PState {
    /// The source fits the lexer's counters.
    pub open spec fn ok(self) -> bool {
        self.lex.input.len() < usize::MAX
    }

    /// A measure of the input still to be parsed: three for each source
    /// character ahead, and one for each of the current and next tokens that
    /// is not `Eof`.
    pub open spec fn measure(self) -> nat {
        3 * self.lex.remaining() + live(self.peek) + live(self.cur)
    }

    /// Moves one token on: the next token becomes the current one.
    pub open spec fn advance(self) -> PState {
        let (t, l) = self.lex.next_token();
        PState { lex: l, cur: self.peek, peek: t, errors: self.errors }
    }

    /// Records an error message.
    pub open spec fn error(self, msg: Seq<char>) -> PState {
        PState { errors: self.errors.push(msg), ..self }
    }

    /// Records that the next token was expected to be of kind `t`.
    pub open spec fn peek_error(self, t: TokenType) -> PState {
        self.error(expected_msg(t, self.peek.ty))
    }

    /// Moves on when the next token is of kind `t`; records an error otherwise.
    pub open spec fn expect_peek(self, t: TokenType) -> (bool, PState) {
        if self.peek.ty == t {
            (true, self.advance())
        } else {
            (false, self.peek_error(t))
        }
    }

    /// The state a parser starts in on a lexer in state `l`.
    pub open spec fn start(l: LexState) -> PState {
        let blank = TokenModel { ty: TokenType::Illegal, lit: Seq::empty() };
        PState { lex: l, cur: blank, peek: blank, errors: Seq::empty() }.advance().advance()
    }

    /// The identifier made of the current token.
    pub open spec fn cur_ident(self) -> IdentModel {
        IdentModel { token: self.cur, value: self.cur.lit }
    }

    /// Skips the next token when it is a semicolon.
    pub open spec fn skip_semicolon(self) -> PState {
        if self.peek.ty == TokenType::Semicolon {
            self.advance()
        } else {
            self
        }
    }
}

/// Moving on never grows the measure, and shrinks it when the current token
/// is not `Eof`.
pub proof fn lemma_advance_measure(st: PState)
    requires
        st.ok(),
    ensures
        st.advance().ok(),
        st.advance().measure() <= st.measure(),
        st.cur.ty != TokenType::Eof ==> st.advance().measure() < st.measure(),
        st.advance().cur == st.peek,
{
    lemma_next_token_progress(st.lex);
}

// ---------------------------------------------------------------------------
// The grammar, as the parser reads it. Each function takes the state and
// gives its result and the state after it. A test `m < st.measure()` (or
// `<=`) before a call only ever fails on states the parser cannot reach:
// the parser's own postconditions show it holds.
/// A statement at the current token.
pub open spec fn parse_statement(st: PState) -> (Option<StmtModel>, PState)
    decreases st.measure(), 9nat,
    when st.ok()
{
    match st.cur.ty {
        TokenType::Const => parse_let(st),
        TokenType::Return => parse_return(st),
        TokenType::If => parse_if(st),
        TokenType::While => parse_while(st),
        TokenType::For => parse_for(st),
        TokenType::Break => (Some(StmtModel::Break { token: st.cur }), st.skip_semicolon()),
        TokenType::Continue => (Some(StmtModel::Continue { token: st.cur }), st.skip_semicolon()),
        TokenType::LeftBrace => {
            let (b, s1) = parse_block(st);
            match b {
                Some(b) => (Some(StmtModel::Block(b)), s1),
                None => (None, s1),
            }
        },
        _ => parse_expression_statement(st),
    }
}

/// `const name = value;`
pub open spec fn parse_let(st: PState) -> (Option<StmtModel>, PState)
    decreases st.measure(), 8nat,
    when st.ok()
{
    let token = st.cur;
    let (ok1, s1) = st.expect_peek(TokenType::Identifier);
    if !ok1 {
        (None, s1)
    } else {
        let name = s1.cur_ident();
        let (ok2, s2) = s1.expect_peek(TokenType::Assign);
        if !ok2 {
            (None, s2)
        } else {
            let s3 = s2.advance();
            proof {
                lemma_advance_measure(st);
                lemma_advance_measure(s1);
                lemma_advance_measure(s2);
            }
            if s3.measure() < st.measure() {
                let (r, s4) = parse_expression(s3, Precedence::Lowest);
                match r {
                    Err(e) => (None, s4.error(e)),
                    Ok(value) => (Some(StmtModel::Let { token, name, value }), s4.skip_semicolon()),
                }
            } else {
                (None, s3)
            }
        }
    }
}

/// `return value;`
pub open spec fn parse_return(st: PState) -> (Option<StmtModel>, PState)
    decreases st.measure(), 8nat,
    when st.ok()
{
    let token = st.cur;
    let s1 = st.advance();
    if s1.measure() < st.measure() {
        let (r, s2) = parse_expression(s1, Precedence::Lowest);
        match r {
            Err(e) => (None, s2.error(e)),
            Ok(v) => (Some(StmtModel::Return { token, return_value: v }), s2.skip_semicolon()),
        }
    } else {
        (None, s1)
    }
}

/// An expression used as a statement.
pub open spec fn parse_expression_statement(st: PState) -> (Option<StmtModel>, PState)
    decreases st.measure(), 8nat,
    when st.ok()
{
    let token = st.cur;
    let (r, s1) = parse_expression(st, Precedence::Lowest);
    match r {
        Err(e) => (None, s1.error(e)),
        Ok(expression) => (Some(StmtModel::Expr { token, expression }), s1.skip_semicolon()),
    }
}

/// An expression whose operators bind more tightly than `prec`.
pub open spec fn parse_expression(st: PState, prec: Precedence) -> (Result<ExprModel, Seq<char>>, PState)
    decreases st.measure(), 7nat,
    when st.ok()
{
    let (left, s1) = parse_prefix(st);
    match left {
        Err(e) => (Err(e), s1),
        Ok(l) => if s1.measure() <= st.measure() {
            parse_infix_loop(s1, l, prec)
        } else {
            (Ok(l), s1)
        },
    }
}

/// The operand an expression starts with.
pub open spec fn parse_prefix(st: PState) -> (Result<ExprModel, Seq<char>>, PState)
    decreases st.measure(), 6nat,
    when st.ok()
{
    let t = st.cur;
    match t.ty {
        TokenType::Identifier => (Ok(ExprModel::Ident(st.cur_ident())), st),
        TokenType::Int => match int_literal_value(t.lit) {
            Some(v) => (Ok(ExprModel::Int { token: t, value: v }), st),
            None => (Err(int_error_msg(t.lit)), st),
        },
        TokenType::Float => match double_from_text(t.lit) {
            Some(v) => (Ok(ExprModel::Float { token: t, value: v }), st),
            None => (Err(float_error_msg(t.lit)), st),
        },
        TokenType::String => (Ok(ExprModel::Str { token: t, value: t.lit }), st),
        TokenType::True | TokenType::False => (
            Ok(ExprModel::Bool { token: t, value: t.ty == TokenType::True }),
            st,
        ),
        TokenType::Minus | TokenType::Not => parse_prefix_expression(st),
        TokenType::LeftParenthesis => parse_grouped(st),
        TokenType::Function => parse_function_literal(st),
        _ => (Err(no_prefix_msg(t.ty)), st),
    }
}

/// Operators that join `left` to what follows, while they bind more
/// tightly than `prec`.
pub open spec fn parse_infix_loop(st: PState, left: ExprModel, prec: Precedence) -> (
    Result<ExprModel, Seq<char>>,
    PState,
)
    decreases st.measure(), 6nat,
    when st.ok()
{
    if st.peek.ty != TokenType::Semicolon && prec.level() < precedence_of(st.peek.ty).level() {
        let p = st.peek.ty;
        if p == TokenType::Plus || p == TokenType::Minus || p == TokenType::Slash || p
            == TokenType::Asterisk || p == TokenType::Equal || p == TokenType::NotEqual || p
            == TokenType::LessThan || p == TokenType::GreaterThan || p
            == TokenType::LeftParenthesis {
            let s1 = st.advance();
            proof {
                lemma_advance_measure(st);
            }
            let (r, s2) = if p == TokenType::LeftParenthesis {
                parse_call(s1, left)
            } else {
                parse_infix(s1, left)
            };
            match r {
                Err(e) => (Err(e), s2),
                Ok(e2) => if s2.measure() < st.measure() {
                    parse_infix_loop(s2, e2, prec)
                } else {
                    (Ok(e2), s2)
                },
            }
        } else {
            (Ok(left), st)
        }
    } else {
        (Ok(left), st)
    }
}

/// `-x` or `!x`.
pub open spec fn parse_prefix_expression(st: PState) -> (Result<ExprModel, Seq<char>>, PState)
    decreases st.measure(), 5nat,
    when st.ok()
{
    let token = st.cur;
    let s1 = st.advance();
    if s1.measure() < st.measure() {
        let (r, s2) = parse_expression(s1, Precedence::Prefix);
        match r {
            Err(e) => (Err(e), s2),
            Ok(right) => (
                Ok(ExprModel::Prefix { token, operator: token.lit, right: Box::new(right) }),
                s2,
            ),
        }
    } else {
        (Err(Seq::empty()), s1)
    }
}

/// `left op right`, at the operator.
pub open spec fn parse_infix(st: PState, left: ExprModel) -> (Result<ExprModel, Seq<char>>, PState)
    decreases st.measure(), 5nat,
    when st.ok()
{
    let token = st.cur;
    let prec = precedence_of(st.cur.ty);
    let s1 = st.advance();
    if s1.measure() < st.measure() {
        let (r, s2) = parse_expression(s1, prec);
        match r {
            Err(e) => (Err(e), s2),
            Ok(right) => (
                Ok(
                    ExprModel::Infix {
                        token,
                        left: Box::new(left),
                        operator: token.lit,
                        right: Box::new(right),
                    },
                ),
                s2,
            ),
        }
    } else {
        (Err(Seq::empty()), s1)
    }
}

/// `( expression )`.
pub open spec fn parse_grouped(st: PState) -> (Result<ExprModel, Seq<char>>, PState)
    decreases st.measure(), 5nat,
    when st.ok()
{
    let s1 = st.advance();
    if s1.measure() < st.measure() {
        let (r, s2) = parse_expression(s1, Precedence::Lowest);
        match r {
            Err(e) => (Err(e), s2),
            Ok(e) => {
                let (ok, s3) = s2.expect_peek(TokenType::RightParenthesis);
                if !ok {
                    (Err("expected right parenthesis"@), s3)
                } else {
                    (Ok(e), s3)
                }
            },
        }
    } else {
        (Err(Seq::empty()), s1)
    }
}

/// `func(parameters) { body }`.
pub open spec fn parse_function_literal(st: PState) -> (Result<ExprModel, Seq<char>>, PState)
    decreases st.measure(), 5nat,
    when st.ok()
{
    let token = st.cur;
    let (ok1, s1) = st.expect_peek(TokenType::LeftParenthesis);
    if !ok1 {
        (Err("expected left parenthesis"@), s1)
    } else {
        let (params, s2) = parse_function_parameters(s1);
        match params {
            Err(e) => (Err(e), s2),
            Ok(parameters) => {
                let (ok2, s3) = s2.expect_peek(TokenType::LeftBrace);
                if !ok2 {
                    (Err("expected left brace"@), s3)
                } else if s3.measure() < st.measure() {
                    let (b, s4) = parse_block(s3);
                    match b {
                        None => (Err("failed to parse block statement"@), s4),
                        Some(body) => (Ok(ExprModel::Function { token, parameters, body }), s4),
                    }
                } else {
                    (Err(Seq::empty()), s3)
                }
            },
        }
    }
}

/// `(arguments)` after a callee.
pub open spec fn parse_call(st: PState, function: ExprModel) -> (Result<ExprModel, Seq<char>>, PState)
    decreases st.measure(), 5nat,
    when st.ok()
{
    let token = st.cur;
    let (r, s1) = parse_call_arguments(st);
    match r {
        Err(e) => (Err(e), s1),
        Ok(arguments) => (
            Ok(ExprModel::Call { token, function: Box::new(function), arguments }),
            s1,
        ),
    }
}

/// The arguments of a call, at its `(`.
pub open spec fn parse_call_arguments(st: PState) -> (Result<Seq<ExprModel>, Seq<char>>, PState)
    decreases st.measure(), 4nat,
    when st.ok()
{
    if st.peek.ty == TokenType::RightParenthesis {
        (Ok(Seq::empty()), st.advance())
    } else {
        let s1 = st.advance();
        if s1.measure() < st.measure() {
            let (r, s2) = parse_expression(s1, Precedence::Lowest);
            match r {
                Err(e) => (Err(e), s2),
                Ok(a) => if s2.measure() <= st.measure() {
                    finish_arguments(parse_arguments_loop(s2, seq![a]))
                } else {
                    (Err(Seq::empty()), s2)
                },
            }
        } else {
            (Err(Seq::empty()), s1)
        }
    }
}

/// The `)` that closes a list of arguments.
pub open spec fn finish_arguments(p: (Result<Seq<ExprModel>, Seq<char>>, PState)) -> (
    Result<Seq<ExprModel>, Seq<char>>,
    PState,
) {
    let (r, s) = p;
    match r {
        Err(e) => (Err(e), s),
        Ok(args) => {
            let (ok, s1) = s.expect_peek(TokenType::RightParenthesis);
            if !ok {
                (Err("expected right parenthesis"@), s1)
            } else {
                (Ok(args), s1)
            }
        },
    }
}

/// Further arguments, each after a comma.
pub open spec fn parse_arguments_loop(st: PState, acc: Seq<ExprModel>) -> (
    Result<Seq<ExprModel>, Seq<char>>,
    PState,
)
    decreases st.measure(), 3nat,
    when st.ok()
{
    if st.peek.ty == TokenType::Comma {
        let s1 = st.advance().advance();
        proof {
            lemma_advance_measure(st);
            lemma_advance_measure(st.advance());
        }
        let (r, s2) = parse_expression(s1, Precedence::Lowest);
        match r {
            Err(e) => (Err(e), s2),
            Ok(a) => if s2.measure() < st.measure() {
                parse_arguments_loop(s2, acc.push(a))
            } else {
                (Err(Seq::empty()), s2)
            },
        }
    } else {
        (Ok(acc), st)
    }
}

/// `{ statements }`, at its `{`.
pub open spec fn parse_block(st: PState) -> (Option<BlockModel>, PState)
    decreases st.measure(), 8nat,
    when st.ok()
{
    let token = st.cur;
    let s1 = st.advance();
    if s1.measure() < st.measure() {
        let (stmts, s2) = parse_block_loop(s1, Seq::empty());
        (Some(BlockModel { token, statements: stmts }), s2)
    } else {
        (None, s1)
    }
}

/// The statements of a block, up to its `}` (or the end of the input).
pub open spec fn parse_block_loop(st: PState, acc: Seq<StmtModel>) -> (Seq<StmtModel>, PState)
    decreases st.measure(), 10nat,
    when st.ok()
{
    if st.cur.ty != TokenType::RightBrace && st.cur.ty != TokenType::Eof {
        let (o, s1) = parse_statement(st);
        let acc2 = match o {
            Some(x) => acc.push(x),
            None => acc,
        };
        let s2 = s1.advance();
        if s2.measure() < st.measure() {
            parse_block_loop(s2, acc2)
        } else {
            (acc2, s2)
        }
    } else {
        (acc, st)
    }
}

/// The statements of a program, up to the end of the input.
pub open spec fn parse_program_loop(st: PState, acc: Seq<StmtModel>) -> (Seq<StmtModel>, PState)
    decreases st.measure(), 10nat,
    when st.ok()
{
    if st.cur.ty != TokenType::Eof {
        let (o, s1) = parse_statement(st);
        let acc2 = match o {
            Some(x) => acc.push(x),
            None => acc,
        };
        let s2 = s1.advance();
        if s2.measure() < st.measure() {
            parse_program_loop(s2, acc2)
        } else {
            (acc2, s2)
        }
    } else {
        (acc, st)
    }
}

/// The operand of a prefix operator binds at the prefix level: it is the
/// expression read after the operator at `Precedence::Prefix`, so a looser
/// infix operator after it is left to the enclosing expression
/// (`-a + b` is `((-a) + b)`), while a call is taken into it (`-f(x)` is
/// `(-f(x))`).
pub proof fn law_prefix_operand_binds_at_prefix(st: PState)
    requires
        st.ok(),
        st.cur.ty != TokenType::Eof,
    ensures
        ({
            let (r, s2) = parse_expression(st.advance(), Precedence::Prefix);
            parse_prefix_expression(st) == match r {
                Err(e) => (Err(e), s2),
                Ok(right) => (
                    Ok(ExprModel::Prefix { token: st.cur, operator: st.cur.lit, right: Box::new(right) }),
                    s2,
                ),
            }
        }),
{
    lemma_advance_measure(st);
}

/// The right operand of an infix operator binds at that operator's own
/// level, so operators of one level group to the left (`a - b - c` is
/// `((a - b) - c)`).
pub proof fn law_infix_operand_binds_at_operator_level(st: PState, left: ExprModel)
    requires
        st.ok(),
        st.cur.ty != TokenType::Eof,
    ensures
        ({
            let (r, s2) = parse_expression(st.advance(), precedence_of(st.cur.ty));
            parse_infix(st, left) == match r {
                Err(e) => (Err(e), s2),
                Ok(right) => (
                    Ok(
                        ExprModel::Infix {
                            token: st.cur,
                            left: Box::new(left),
                            operator: st.cur.lit,
                            right: Box::new(right),
                        },
                    ),
                    s2,
                ),
            }
        }),
{
    lemma_advance_measure(st);
}

/// An operand ends before an operator that binds no more tightly than the
/// level it is read at, or before `;`: the operand is then the expression so
/// far, and no token is read.
pub proof fn law_looser_operator_ends_operand(st: PState, left: ExprModel, prec: Precedence)
    requires
        st.ok(),
        st.peek.ty == TokenType::Semicolon || precedence_of(st.peek.ty).level() <= prec.level(),
    ensures
        parse_infix_loop(st, left, prec) == (Ok::<ExprModel, Seq<char>>(left), st),
{
}

/// `if (condition) { ... } else { ... }`
pub open spec fn parse_if(st: PState) -> (Option<StmtModel>, PState)
    decreases st.measure(), 8nat,
    when st.ok()
{
    let token = st.cur;
    let (ok1, s1) = st.expect_peek(TokenType::LeftParenthesis);
    if !ok1 {
        (None, s1)
    } else {
        let s2 = s1.advance();
        if s2.measure() < st.measure() {
            let (r, s3) = parse_expression(s2, Precedence::Lowest);
            match r {
                Err(e) => (None, s3.error(e)),
                Ok(condition) => {
                    let (ok2, s4) = s3.expect_peek(TokenType::RightParenthesis);
                    if !ok2 {
                        (None, s4)
                    } else {
                        let (ok3, s5) = s4.expect_peek(TokenType::LeftBrace);
                        if !ok3 {
                            (None, s5)
                        } else if s5.measure() < st.measure() {
                            let (b, s6) = parse_block(s5);
                            match b {
                                None => (None, s6),
                                Some(consequence) => if s6.peek.ty == TokenType::Else {
                                    let s7 = s6.advance();
                                    let (ok4, s8) = s7.expect_peek(TokenType::LeftBrace);
                                    if !ok4 {
                                        (None, s8)
                                    } else if s8.measure() < st.measure() {
                                        let (b2, s9) = parse_block(s8);
                                        match b2 {
                                            None => (None, s9),
                                            Some(alt) => (
                                                Some(
                                                    StmtModel::If {
                                                        token,
                                                        condition,
                                                        consequence,
                                                        alternative: Some(alt),
                                                    },
                                                ),
                                                s9,
                                            ),
                                        }
                                    } else {
                                        (None, s8)
                                    }
                                } else {
                                    (
                                        Some(
                                            StmtModel::If {
                                                token,
                                                condition,
                                                consequence,
                                                alternative: None,
                                            },
                                        ),
                                        s6,
                                    )
                                },
                            }
                        } else {
                            (None, s5)
                        }
                    }
                },
            }
        } else {
            (None, s2)
        }
    }
}

/// `while (condition) { ... }`
pub open spec fn parse_while(st: PState) -> (Option<StmtModel>, PState)
    decreases st.measure(), 8nat,
    when st.ok()
{
    let token = st.cur;
    let (ok1, s1) = st.expect_peek(TokenType::LeftParenthesis);
    if !ok1 {
        (None, s1)
    } else {
        let s2 = s1.advance();
        if s2.measure() < st.measure() {
            let (r, s3) = parse_expression(s2, Precedence::Lowest);
            match r {
                Err(e) => (None, s3.error(e)),
                Ok(condition) => {
                    let (ok2, s4) = s3.expect_peek(TokenType::RightParenthesis);
                    if !ok2 {
                        (None, s4)
                    } else {
                        let (ok3, s5) = s4.expect_peek(TokenType::LeftBrace);
                        if !ok3 {
                            (None, s5)
                        } else if s5.measure() < st.measure() {
                            let (b, s6) = parse_block(s5);
                            match b {
                                None => (None, s6),
                                Some(body) => (Some(StmtModel::While { token, condition, body }), s6),
                            }
                        } else {
                            (None, s5)
                        }
                    }
                },
            }
        } else {
            (None, s2)
        }
    }
}

/// The initializer or the update of a `for`: a `const` statement or an
/// expression statement, with a following semicolon skipped.
pub open spec fn parse_for_clause(st: PState) -> (Option<StmtModel>, PState)
    decreases st.measure(), 9nat,
    when st.ok()
{
    let (c, s1) = if st.cur.ty == TokenType::Const {
        parse_let(st)
    } else {
        parse_expression_statement(st)
    };
    if s1.cur.ty != TokenType::Semicolon && s1.peek.ty == TokenType::Semicolon {
        (c, s1.advance())
    } else {
        (c, s1)
    }
}

/// `for (initializer; condition; update) { ... }`
pub open spec fn parse_for(st: PState) -> (Option<StmtModel>, PState)
    decreases st.measure(), 8nat,
    when st.ok()
{
    let token = st.cur;
    let (ok1, s1) = st.expect_peek(TokenType::LeftParenthesis);
    if !ok1 {
        (None, s1)
    } else {
        let s2 = s1.advance();
        if s2.measure() < st.measure() {
            let (initializer, s3) = if s2.cur.ty != TokenType::Semicolon {
                parse_for_clause(s2)
            } else {
                (None, s2)
            };
            if s3.cur.ty != TokenType::Semicolon {
                (None, s3.peek_error(TokenType::Semicolon))
            } else if s3.ok() && s3.measure() < st.measure() {
                parse_for_condition(s3, token, initializer)
            } else {
                (None, s3)
            }
        } else {
            (None, s2)
        }
    }
}

/// The condition of a `for`, from the `;` after its initializer.
pub open spec fn parse_for_condition(st: PState, token: TokenModel, initializer: Option<StmtModel>) -> (
    Option<StmtModel>,
    PState,
)
    decreases st.measure(), 8nat,
    when st.ok()
{
    let s4 = st.advance();
    if s4.measure() < st.measure() {
        if s4.cur.ty != TokenType::Semicolon {
            let (r, t1) = parse_expression(s4, Precedence::Lowest);
            match r {
                Err(e) => (None, t1.error(e)),
                Ok(c) => {
                    let (ok, t2) = t1.expect_peek(TokenType::Semicolon);
                    if !ok {
                        (None, t2)
                    } else if t2.ok() && t2.measure() < st.measure() {
                        parse_for_rest(t2, token, initializer, Some(c))
                    } else {
                        (None, t2)
                    }
                },
            }
        } else {
            parse_for_rest(s4, token, initializer, None)
        }
    } else {
        (None, s4)
    }
}

/// The rest of a `for`, from the `;` after its condition: the update, the
/// `)` and the body.
pub open spec fn parse_for_rest(
    st: PState,
    token: TokenModel,
    initializer: Option<StmtModel>,
    condition: Option<ExprModel>,
) -> (Option<StmtModel>, PState)
    decreases st.measure(), 8nat,
    when st.ok()
{
    let s6 = st.advance();
    if s6.measure() < st.measure() {
        let (update, s7) = if s6.cur.ty != TokenType::RightParenthesis {
            parse_for_clause(s6)
        } else {
            (None, s6)
        };
        let (ok2, s8) = s7.expect_peek(TokenType::RightParenthesis);
        if !ok2 {
            (None, s8)
        } else {
            let (ok3, s9) = s8.expect_peek(TokenType::LeftBrace);
            if !ok3 {
                (None, s9)
            } else if s9.measure() < st.measure() {
                let (b, s10) = parse_block(s9);
                match b {
                    None => (None, s10),
                    Some(body) => (
                        Some(
                            StmtModel::For {
                                token,
                                initializer: match initializer {
                                    Some(i) => Some(Box::new(i)),
                                    None => None,
                                },
                                condition,
                                update: match update {
                                    Some(u) => Some(Box::new(u)),
                                    None => None,
                                },
                                body,
                            },
                        ),
                        s10,
                    ),
                }
            } else {
                (None, s9)
            }
        }
    } else {
        (None, s6)
    }
}

/// Further parameters, each after a comma.
pub open spec fn parse_parameters_loop(st: PState, acc: Seq<IdentModel>) -> (Seq<IdentModel>, PState)
    decreases st.measure(),
    when st.ok()
{
    if st.peek.ty == TokenType::Comma {
        let s1 = st.advance().advance();
        proof {
            lemma_advance_measure(st);
            lemma_advance_measure(st.advance());
        }
        parse_parameters_loop(s1, acc.push(s1.cur_ident()))
    } else {
        (acc, st)
    }
}

/// The parameters of a function literal, at its `(`.
pub open spec fn parse_function_parameters(st: PState) -> (Result<Seq<IdentModel>, Seq<char>>, PState) {
    if st.peek.ty == TokenType::RightParenthesis {
        (Ok(Seq::empty()), st.advance())
    } else {
        let s1 = st.advance();
        let (ids, s2) = parse_parameters_loop(s1, seq![s1.cur_ident()]);
        let (ok, s3) = s2.expect_peek(TokenType::RightParenthesis);
        if !ok {
            (Err("expected right parenthesis"@), s3)
        } else {
            (Ok(ids), s3)
        }
    }
}


// ---------------------------------------------------------------------------
// The parser
/// The texts of a sequence of strings.
pub open spec fn strings_model(s: Seq<String>) -> Seq<Seq<char>> {
    s.map_values(|x: String| x@)
}

/// The errors of `b` are those of `a`, followed by any recorded since.
pub open spec fn errors_grow(a: PState, b: PState) -> bool {
    &&& a.errors.len() <= b.errors.len()
    &&& forall|i: int| 0 <= i < a.errors.len() ==> #[trigger] b.errors[i] == a.errors[i]
}

/// `b` is no further from the end of the input than `a`, and when it is
/// just as far its current token is the same.
pub open spec fn progress(a: PState, b: PState) -> bool {
    &&& b.measure() <= a.measure()
    &&& (b.measure() == a.measure() ==> b.cur == a.cur)
}

/// The model of a parsed expression or of the error met instead.
pub open spec fn expr_result_model(r: Result<Expression, String>) -> Result<ExprModel, Seq<char>> {
    match r {
        Ok(e) => Ok(expr_model(e)),
        Err(s) => Err(s@),
    }
}

/// Reads a program from the tokens a lexer hands it.
pub struct Parser<'a> {
    lexer: &'a mut Lexer,
    cur_token: Token,
    peek_token: Token,
    errors: Vec<String>,
}

impl<'a> View for Parser<'a> {
    type V = PState;

    closed spec fn view(&self) -> PState {
        PState {
            lex: (*self.lexer)@,
            cur: self.cur_token@,
            peek: self.peek_token@,
            errors: strings_model(self.errors@),
        }
    }
}

impl<'a> Parser<'a> {
    /// The lexer agrees with its model.
    pub closed spec fn wf(&self) -> bool {
        self.lexer.wf()
    }

    /// The lexer agrees with its model and the source fits its counters.
    pub open spec fn valid(&self) -> bool {
        self.wf() && self@.ok()
    }

    pub proof fn lemma_wf_ok(&self)
        requires
            self.valid(),
        ensures
            self@.ok(),
    {
    }

    /// A parser over `lexer`, with the first two tokens already read.
    pub fn new(lexer: &'a mut Lexer) -> (p: Self)
        requires
            old(lexer).wf(),
        ensures
            p.valid(),
            p@ == PState::start(old(lexer)@),
    {
        let mut p = Parser {
            lexer,
            cur_token: Token { token_type: TokenType::Illegal, literal: String::new() },
            peek_token: Token { token_type: TokenType::Illegal, literal: String::new() },
            errors: Vec::new(),
        };
        assert(p@.errors =~= Seq::<Seq<char>>::empty());
        proof {
            p.lexer.lemma_wf_ok();
        }
        p.next_token();
        p.next_token();
        p
    }

    /// Moves one token on.
    pub fn next_token(&mut self)
        requires
            old(self).valid(),
        ensures
            errors_grow(old(self)@, final(self)@),
            final(self).valid(),
            final(self)@ == old(self)@.advance(),
    {
        proof {
            lemma_next_token_progress(self.lexer@);
        }
        let mut t = self.lexer.next_token();
        std::mem::swap(&mut self.peek_token, &mut t);
        self.cur_token = t;
    }

    /// The errors recorded so far.
    pub fn errors(&self) -> (r: &Vec<String>)
        ensures
            strings_model(r@) == self@.errors,
    {
        &self.errors
    }

    fn push_error(&mut self, msg: String)
        requires
            old(self).valid(),
        ensures
            errors_grow(old(self)@, final(self)@),
            final(self).valid(),
            final(self)@ == old(self)@.error(msg@),
    {
        self.errors.push(msg);
        assert(strings_model(self.errors@) =~= strings_model(old(self).errors@).push(msg@));
    }

    fn peek_error(&mut self, t: TokenType)
        requires
            old(self).valid(),
        ensures
            errors_grow(old(self)@, final(self)@),
            final(self).valid(),
            final(self)@ == old(self)@.peek_error(t),
    {
        let msg = expected_message(t, self.peek_token.token_type);
        self.push_error(msg);
    }

    fn peek_token_is(&self, t: &TokenType) -> (r: bool)
        ensures
            r == (self@.peek.ty == *t),
    {
        self.peek_token.token_type == *t
    }

    fn cur_token_is(&self, t: TokenType) -> (r: bool)
        ensures
            r == (self@.cur.ty == t),
    {
        self.cur_token.token_type == t
    }

    fn expect_peek(&mut self, t: TokenType) -> (r: bool)
        requires
            old(self).valid(),
        ensures
            errors_grow(old(self)@, final(self)@),
            final(self).valid(),
            (r, final(self)@) == old(self)@.expect_peek(t),
    {
        if self.peek_token_is(&t) {
            self.next_token();
            true
        } else {
            self.peek_error(t);
            false
        }
    }

    fn peek_precedence(&self) -> (p: Precedence)
        ensures
            p == precedence_of(self@.peek.ty),
    {
        self.peek_token.token_type.precedence()
    }

    fn cur_precedence(&self) -> (p: Precedence)
        ensures
            p == precedence_of(self@.cur.ty),
    {
        self.cur_token.token_type.precedence()
    }

    fn parse_identifier(&self) -> (e: Expression)
        ensures
            expr_model(e) == (ExprModel::Ident(self@.cur_ident())),
    {
        Expression::Identifier(
            Identifier { token: copy_token(&self.cur_token), value: self.cur_token.literal.clone() },
        )
    }

    fn parse_integer_literal(&self) -> (r: Result<Expression, String>)
        ensures
            expr_result_model(r) == (match int_literal_value(self@.cur.lit) {
                Some(v) => Ok(ExprModel::Int { token: self@.cur, value: v }),
                None => Err(int_error_msg(self@.cur.lit)),
            }),
    {
        match parse_int_literal(&self.cur_token.literal) {
            Some(value) => Ok(Expression::Int { token: copy_token(&self.cur_token), value }),
            None => Err(int_error_message(&self.cur_token.literal)),
        }
    }

    fn parse_float_literal(&self) -> (r: Result<Expression, String>)
        ensures
            expr_result_model(r) == (match double_from_text(self@.cur.lit) {
                Some(v) => Ok(ExprModel::Float { token: self@.cur, value: v }),
                None => Err(float_error_msg(self@.cur.lit)),
            }),
    {
        match double_parse(&self.cur_token.literal) {
            Some(value) => Ok(Expression::Float { token: copy_token(&self.cur_token), value }),
            None => Err(float_error_message(&self.cur_token.literal)),
        }
    }

    fn parse_string_literal(&self) -> (e: Expression)
        ensures
            expr_model(e) == (ExprModel::Str { token: self@.cur, value: self@.cur.lit }),
    {
        Expression::String {
            token: copy_token(&self.cur_token),
            value: self.cur_token.literal.clone(),
        }
    }

    fn parse_boolean(&self) -> (e: Expression)
        ensures
            expr_model(e) == (ExprModel::Bool {
                token: self@.cur,
                value: self@.cur.ty == TokenType::True,
            }),
    {
        Expression::Bool {
            token: copy_token(&self.cur_token),
            value: self.cur_token.token_type == TokenType::True,
        }
    }

    /// Skips the next token when it is a semicolon.
    fn skip_semicolon(&mut self)
        requires
            old(self).valid(),
        ensures
            errors_grow(old(self)@, final(self)@),
            final(self).valid(),
            final(self)@ == old(self)@.skip_semicolon(),
    {
        if self.peek_token_is(&TokenType::Semicolon) {
            self.next_token();
        }
    }

    /// Reads statements up to the end of the input. The errors recorded
    /// before are kept; those met now follow them.
    pub fn parse_program(&mut self) -> (program: Program)
        requires
            old(self).valid(),
        ensures
            errors_grow(old(self)@, final(self)@),
            final(self).valid(),
            (program@, final(self)@) == parse_program_loop(old(self)@, Seq::empty()),
            final(self)@.cur.ty == TokenType::Eof,
    {
        let mut program = Program { statements: Vec::new() };
        let ghost s0 = self@;
        while self.cur_token.token_type != TokenType::Eof
            invariant
                errors_grow(old(self)@, self@),
                self.valid(),
                parse_program_loop(self@, program@) == parse_program_loop(s0, Seq::empty()),
            decreases self@.measure(),
        {
            let ghost st = self@;
            proof {
                self.lemma_wf_ok();
            }
            let o = self.parse_statement();
            let ghost acc = program@;
            if let Some(stmt) = o {
                proof {
                    lemma_stmts_model_push(program.statements@, stmt);
                }
                program.statements.push(stmt);
            }
            let ghost s1 = self@;
            proof {
                self.lemma_wf_ok();
                lemma_advance_measure(s1);
            }
            self.next_token();
        }
        program
    }

    fn parse_statement(&mut self) -> (r: Option<Statement>)
        requires
            old(self).valid(),
        ensures
            errors_grow(old(self)@, final(self)@),
            final(self).valid(),
            (opt_stmt_model(r), final(self)@) == parse_statement(old(self)@),
            progress(old(self)@, final(self)@),
        decreases old(self)@.measure(), 9nat,
    {
        proof {
            self.lemma_wf_ok();
        }
        match self.cur_token.token_type {
            TokenType::Const => self.parse_let_statement(),
            TokenType::Return => self.parse_return_statement(),
            TokenType::If => self.parse_if_statement(),
            TokenType::While => self.parse_while_statement(),
            TokenType::For => self.parse_for_statement(),
            TokenType::Break => self.parse_break_statement(),
            TokenType::Continue => self.parse_continue_statement(),
            TokenType::LeftBrace => match self.parse_block_statement() {
                Some(b) => Some(Statement::Block(b)),
                None => None,
            },
            _ => self.parse_expression_statement(),
        }
    }

    fn parse_let_statement(&mut self) -> (r: Option<Statement>)
        requires
            old(self).valid(),
            old(self)@.cur.ty != TokenType::Eof,
        ensures
            errors_grow(old(self)@, final(self)@),
            final(self).valid(),
            (opt_stmt_model(r), final(self)@) == parse_let(old(self)@),
            progress(old(self)@, final(self)@),
        decreases old(self)@.measure(), 8nat,
    {
        let ghost st = self@;
        proof {
            self.lemma_wf_ok();
            lemma_advance_measure(st);
        }
        let token = copy_token(&self.cur_token);
        if !self.expect_peek(TokenType::Identifier) {
            return None;
        }
        let name = Identifier { token: copy_token(&self.cur_token), value: self.cur_token.literal.clone() };
        proof {
            self.lemma_wf_ok();
            lemma_advance_measure(self@);
        }
        if !self.expect_peek(TokenType::Assign) {
            return None;
        }
        proof {
            self.lemma_wf_ok();
            lemma_advance_measure(self@);
        }
        self.next_token();
        let value = match self.parse_expression(Precedence::Lowest) {
            Ok(val) => val,
            Err(e) => {
                self.push_error(e);
                return None;
            },
        };
        proof {
            self.lemma_wf_ok();
            lemma_advance_measure(self@);
        }
        self.skip_semicolon();
        Some(Statement::Let { token, name, value })
    }

    fn parse_return_statement(&mut self) -> (r: Option<Statement>)
        requires
            old(self).valid(),
            old(self)@.cur.ty != TokenType::Eof,
        ensures
            errors_grow(old(self)@, final(self)@),
            final(self).valid(),
            (opt_stmt_model(r), final(self)@) == parse_return(old(self)@),
            final(self)@.measure() < old(self)@.measure(),
        decreases old(self)@.measure(), 8nat,
    {
        proof {
            self.lemma_wf_ok();
            lemma_advance_measure(self@);
        }
        let token = copy_token(&self.cur_token);
        self.next_token();
        let return_value = match self.parse_expression(Precedence::Lowest) {
            Ok(val) => val,
            Err(e) => {
                self.push_error(e);
                return None;
            },
        };
        proof {
            self.lemma_wf_ok();
            lemma_advance_measure(self@);
        }
        self.skip_semicolon();
        Some(Statement::Return { token, return_value })
    }

    fn parse_expression_statement(&mut self) -> (r: Option<Statement>)
        requires
            old(self).valid(),
        ensures
            errors_grow(old(self)@, final(self)@),
            final(self).valid(),
            (opt_stmt_model(r), final(self)@) == parse_expression_statement(old(self)@),
            progress(old(self)@, final(self)@),
        decreases old(self)@.measure(), 8nat,
    {
        let token = copy_token(&self.cur_token);
        let expression = match self.parse_expression(Precedence::Lowest) {
            Ok(val) => val,
            Err(e) => {
                self.push_error(e);
                return None;
            },
        };
        proof {
            self.lemma_wf_ok();
            lemma_advance_measure(self@);
        }
        self.skip_semicolon();
        Some(Statement::Expression { token, expression })
    }

    fn parse_break_statement(&mut self) -> (r: Option<Statement>)
        requires
            old(self).valid(),
            old(self)@.cur.ty == TokenType::Break,
        ensures
            errors_grow(old(self)@, final(self)@),
            final(self).valid(),
            (opt_stmt_model(r), final(self)@) == (
                Some(StmtModel::Break { token: old(self)@.cur }),
                old(self)@.skip_semicolon(),
            ),
            progress(old(self)@, final(self)@),
    {
        proof {
            self.lemma_wf_ok();
            lemma_advance_measure(self@);
        }
        let token = copy_token(&self.cur_token);
        self.skip_semicolon();
        Some(Statement::Break { token })
    }

    fn parse_continue_statement(&mut self) -> (r: Option<Statement>)
        requires
            old(self).valid(),
            old(self)@.cur.ty == TokenType::Continue,
        ensures
            errors_grow(old(self)@, final(self)@),
            final(self).valid(),
            (opt_stmt_model(r), final(self)@) == (
                Some(StmtModel::Continue { token: old(self)@.cur }),
                old(self)@.skip_semicolon(),
            ),
            progress(old(self)@, final(self)@),
    {
        proof {
            self.lemma_wf_ok();
            lemma_advance_measure(self@);
        }
        let token = copy_token(&self.cur_token);
        self.skip_semicolon();
        Some(Statement::Continue { token })
    }

    fn parse_expression(&mut self, precedence: Precedence) -> (r: Result<Expression, String>)
        requires
            old(self).valid(),
        ensures
            errors_grow(old(self)@, final(self)@),
            final(self).valid(),
            (expr_result_model(r), final(self)@) == parse_expression(old(self)@, precedence),
            progress(old(self)@, final(self)@),
            old(self)@.cur.ty == TokenType::Eof ==> r is Err && final(self)@ == old(self)@,
        decreases old(self)@.measure(), 7nat,
    {
        let ghost st = self@;
        proof {
            self.lemma_wf_ok();
        }
        let mut left_exp = match self.cur_token.token_type {
            TokenType::Identifier => self.parse_identifier(),
            TokenType::Int => match self.parse_integer_literal() {
                Ok(e) => e,
                Err(e) => return Err(e),
            },
            TokenType::Float => match self.parse_float_literal() {
                Ok(e) => e,
                Err(e) => return Err(e),
            },
            TokenType::String => self.parse_string_literal(),
            TokenType::True | TokenType::False => self.parse_boolean(),
            TokenType::Minus | TokenType::Not => match self.parse_prefix_expression() {
                Ok(e) => e,
                Err(e) => return Err(e),
            },
            TokenType::LeftParenthesis => match self.parse_grouped_expression() {
                Ok(e) => e,
                Err(e) => return Err(e),
            },
            TokenType::Function => match self.parse_function_literal() {
                Ok(e) => e,
                Err(e) => return Err(e),
            },
            t => {
                return Err(no_prefix_message(t));
            },
        };
        let ghost s1 = self@;
        let ghost l1 = expr_model(left_exp);
        assert(parse_prefix(st) == (Ok::<ExprModel, Seq<char>>(l1), s1));
        assert(parse_expression(st, precedence) == parse_infix_loop(s1, l1, precedence));
        while !self.peek_token_is(&TokenType::Semicolon) && precedence.binds_looser_than(
            &self.peek_precedence(),
        )
            invariant
                errors_grow(old(self)@, self@),
                self.valid(),
                parse_infix_loop(self@, expr_model(left_exp), precedence) == parse_infix_loop(
                    s1,
                    l1,
                    precedence,
                ),
                progress(st, self@),
                self@.measure() <= s1.measure(),
                s1.measure() <= old(self)@.measure(),
                st == old(self)@,
                st.cur.ty != TokenType::Eof,
                parse_expression(st, precedence) == parse_infix_loop(s1, l1, precedence),
            decreases self@.measure(),
        {
            let ghost it = self@;
            let ghost l_it = expr_model(left_exp);
            proof {
                self.lemma_wf_ok();
                lemma_advance_measure(self@);
            }
            match self.peek_token.token_type {
                TokenType::Plus
                | TokenType::Minus
                | TokenType::Slash
                | TokenType::Asterisk
                | TokenType::Equal
                | TokenType::NotEqual
                | TokenType::LessThan
                | TokenType::GreaterThan => {
                    self.next_token();
                    left_exp = match self.parse_infix_expression(left_exp) {
                        Ok(e) => e,
                        Err(e) => {
                            assert(parse_infix_loop(it, l_it, precedence) == (
                                Err::<ExprModel, Seq<char>>(e@),
                                self@,
                            ));
                            return Err(e);
                        },
                    };
                },
                TokenType::LeftParenthesis => {
                    self.next_token();
                    left_exp = match self.parse_call_expression(left_exp) {
                        Ok(e) => e,
                        Err(e) => {
                            assert(parse_infix_loop(it, l_it, precedence) == (
                                Err::<ExprModel, Seq<char>>(e@),
                                self@,
                            ));
                            return Err(e);
                        },
                    };
                },
                _ => return Ok(left_exp),
            }
        }
        Ok(left_exp)
    }

    fn parse_prefix_expression(&mut self) -> (r: Result<Expression, String>)
        requires
            old(self).valid(),
            old(self)@.cur.ty != TokenType::Eof,
        ensures
            errors_grow(old(self)@, final(self)@),
            final(self).valid(),
            (expr_result_model(r), final(self)@) == parse_prefix_expression(old(self)@),
            final(self)@.measure() < old(self)@.measure(),
        decreases old(self)@.measure(), 5nat,
    {
        proof {
            self.lemma_wf_ok();
            lemma_advance_measure(self@);
        }
        let token = copy_token(&self.cur_token);
        let operator = self.cur_token.literal.clone();
        self.next_token();
        let right = match self.parse_expression(Precedence::Prefix) {
            Ok(r) => r,
            Err(e) => return Err(e),
        };
        Ok(Expression::Prefix { token, operator, right: Box::new(right) })
    }

    fn parse_infix_expression(&mut self, left: Expression) -> (r: Result<Expression, String>)
        requires
            old(self).valid(),
            old(self)@.cur.ty != TokenType::Eof,
        ensures
            errors_grow(old(self)@, final(self)@),
            final(self).valid(),
            (expr_result_model(r), final(self)@) == parse_infix(old(self)@, expr_model(left)),
            final(self)@.measure() < old(self)@.measure(),
        decreases old(self)@.measure(), 5nat,
    {
        proof {
            self.lemma_wf_ok();
            lemma_advance_measure(self@);
        }
        let token = copy_token(&self.cur_token);
        let operator = self.cur_token.literal.clone();
        let precedence = self.cur_precedence();
        self.next_token();
        let right = match self.parse_expression(precedence) {
            Ok(r) => r,
            Err(e) => return Err(e),
        };
        Ok(Expression::Infix { token, left: Box::new(left), operator, right: Box::new(right) })
    }

    fn parse_grouped_expression(&mut self) -> (r: Result<Expression, String>)
        requires
            old(self).valid(),
            old(self)@.cur.ty != TokenType::Eof,
        ensures
            errors_grow(old(self)@, final(self)@),
            final(self).valid(),
            (expr_result_model(r), final(self)@) == parse_grouped(old(self)@),
            final(self)@.measure() < old(self)@.measure(),
        decreases old(self)@.measure(), 5nat,
    {
        proof {
            self.lemma_wf_ok();
            lemma_advance_measure(self@);
        }
        self.next_token();
        let exp = match self.parse_expression(Precedence::Lowest) {
            Ok(e) => e,
            Err(e) => return Err(e),
        };
        proof {
            self.lemma_wf_ok();
            lemma_advance_measure(self@);
        }
        if !self.expect_peek(TokenType::RightParenthesis) {
            return Err(String::from_str("expected right parenthesis"));
        }
        Ok(exp)
    }

    #[verifier::rlimit(60)]
    fn parse_function_literal(&mut self) -> (r: Result<Expression, String>)
        requires
            old(self).valid(),
            old(self)@.cur.ty != TokenType::Eof,
        ensures
            errors_grow(old(self)@, final(self)@),
            final(self).valid(),
            (expr_result_model(r), final(self)@) == parse_function_literal(old(self)@),
            progress(old(self)@, final(self)@),
        decreases old(self)@.measure(), 5nat,
    {
        proof {
            self.lemma_wf_ok();
            lemma_advance_measure(self@);
        }
        let token = copy_token(&self.cur_token);
        if !self.expect_peek(TokenType::LeftParenthesis) {
            return Err(String::from_str("expected left parenthesis"));
        }
        let parameters = match self.parse_function_parameters() {
            Ok(p) => p,
            Err(e) => return Err(e),
        };
        proof {
            self.lemma_wf_ok();
            lemma_advance_measure(self@);
        }
        if !self.expect_peek(TokenType::LeftBrace) {
            return Err(String::from_str("expected left brace"));
        }
        let body = match self.parse_block_statement() {
            Some(b) => b,
            None => return Err(String::from_str("failed to parse block statement")),
        };
        Ok(Expression::Function { token, parameters, body })
    }

    fn parse_function_parameters(&mut self) -> (r: Result<Vec<Identifier>, String>)
        requires
            old(self).valid(),
        ensures
            errors_grow(old(self)@, final(self)@),
            final(self).valid(),
            (match r {
                Ok(v) => Ok(idents_model(v@)),
                Err(e) => Err(e@),
            }, final(self)@) == parse_function_parameters(old(self)@),
            final(self)@.measure() <= old(self)@.measure(),
    {
        let mut identifiers: Vec<Identifier> = Vec::new();
        proof {
            self.lemma_wf_ok();
            lemma_advance_measure(self@);
        }
        if self.peek_token_is(&TokenType::RightParenthesis) {
            self.next_token();
            assert(idents_model(identifiers@) =~= Seq::<IdentModel>::empty());
            return Ok(identifiers);
        }
        self.next_token();
        let ident = Identifier { token: copy_token(&self.cur_token), value: self.cur_token.literal.clone() };
        identifiers.push(ident);
        let ghost s1 = self@;
        assert(idents_model(identifiers@) =~= seq![s1.cur_ident()]);
        while self.peek_token_is(&TokenType::Comma)
            invariant
                errors_grow(old(self)@, self@),
                self.valid(),
                parse_parameters_loop(self@, idents_model(identifiers@)) == parse_parameters_loop(
                    s1,
                    seq![s1.cur_ident()],
                ),
                self@.measure() <= s1.measure(),
            decreases self@.measure(),
        {
            proof {
                self.lemma_wf_ok();
                lemma_advance_measure(self@);
                lemma_advance_measure(self@.advance());
            }
            self.next_token();
            self.next_token();
            let ident = Identifier { token: copy_token(&self.cur_token), value: self.cur_token.literal.clone() };
            proof {
                lemma_idents_model_push(identifiers@, ident);
            }
            identifiers.push(ident);
        }
        proof {
            self.lemma_wf_ok();
            lemma_advance_measure(self@);
        }
        if !self.expect_peek(TokenType::RightParenthesis) {
            return Err(String::from_str("expected right parenthesis"));
        }
        Ok(identifiers)
    }

    fn parse_call_expression(&mut self, function: Expression) -> (r: Result<Expression, String>)
        requires
            old(self).valid(),
            old(self)@.cur.ty != TokenType::Eof,
        ensures
            errors_grow(old(self)@, final(self)@),
            final(self).valid(),
            (expr_result_model(r), final(self)@) == parse_call(old(self)@, expr_model(function)),
            final(self)@.measure() < old(self)@.measure(),
        decreases old(self)@.measure(), 5nat,
    {
        let token = copy_token(&self.cur_token);
        let arguments = match self.parse_call_arguments() {
            Ok(a) => a,
            Err(e) => return Err(e),
        };
        Ok(Expression::Call { token, function: Box::new(function), arguments })
    }

    fn parse_call_arguments(&mut self) -> (r: Result<Vec<Expression>, String>)
        requires
            old(self).valid(),
            old(self)@.cur.ty != TokenType::Eof,
        ensures
            errors_grow(old(self)@, final(self)@),
            final(self).valid(),
            (match r {
                Ok(v) => Ok(exprs_model(v@)),
                Err(e) => Err(e@),
            }, final(self)@) == parse_call_arguments(old(self)@),
            final(self)@.measure() < old(self)@.measure(),
        decreases old(self)@.measure(), 4nat,
    {
        let ghost st = self@;
        let mut args: Vec<Expression> = Vec::new();
        proof {
            self.lemma_wf_ok();
            lemma_advance_measure(self@);
        }
        if self.peek_token_is(&TokenType::RightParenthesis) {
            self.next_token();
            assert(exprs_model(args@) =~= Seq::<ExprModel>::empty());
            return Ok(args);
        }
        self.next_token();
        match self.parse_expression(Precedence::Lowest) {
            Ok(a) => {
                proof {
                    lemma_exprs_model_push(args@, a);
                }
                args.push(a);
            },
            Err(e) => return Err(e),
        }
        let ghost s2 = self@;
        let ghost a0 = exprs_model(args@);
        assert(parse_call_arguments(st) == finish_arguments(parse_arguments_loop(s2, a0)));
        while self.peek_token_is(&TokenType::Comma)
            invariant
                errors_grow(old(self)@, self@),
                self.valid(),
                parse_arguments_loop(self@, exprs_model(args@)) == parse_arguments_loop(s2, a0),
                self@.measure() <= s2.measure(),
                s2.measure() < st.measure(),
                st == old(self)@,
                parse_call_arguments(st) == finish_arguments(parse_arguments_loop(s2, a0)),
            decreases self@.measure(),
        {
            proof {
                self.lemma_wf_ok();
                lemma_advance_measure(self@);
                lemma_advance_measure(self@.advance());
            }
            self.next_token();
            self.next_token();
            match self.parse_expression(Precedence::Lowest) {
                Ok(a) => {
                    proof {
                        lemma_exprs_model_push(args@, a);
                    }
                    args.push(a);
                },
                Err(e) => return Err(e),
            }
        }
        proof {
            self.lemma_wf_ok();
            lemma_advance_measure(self@);
        }
        if !self.expect_peek(TokenType::RightParenthesis) {
            return Err(String::from_str("expected right parenthesis"));
        }
        Ok(args)
    }

    fn parse_block_statement(&mut self) -> (r: Option<BlockStatement>)
        requires
            old(self).valid(),
            old(self)@.cur.ty != TokenType::Eof,
        ensures
            errors_grow(old(self)@, final(self)@),
            final(self).valid(),
            (opt_block_model(r), final(self)@) == parse_block(old(self)@),
            final(self)@.measure() < old(self)@.measure(),
        decreases old(self)@.measure(), 8nat,
    {
        proof {
            self.lemma_wf_ok();
            lemma_advance_measure(self@);
        }
        let token = copy_token(&self.cur_token);
        let mut statements: Vec<Statement> = Vec::new();
        self.next_token();
        let ghost s1 = self@;
        assert(stmts_model(statements@) =~= Seq::<StmtModel>::empty());
        while !self.cur_token_is(TokenType::RightBrace) && !self.cur_token_is(TokenType::Eof)
            invariant
                errors_grow(old(self)@, self@),
                self.valid(),
                parse_block_loop(self@, stmts_model(statements@)) == parse_block_loop(
                    s1,
                    Seq::empty(),
                ),
                self@.measure() <= s1.measure(),
                s1.measure() < old(self)@.measure(),
            decreases self@.measure(),
        {
            proof {
                self.lemma_wf_ok();
            }
            let o = self.parse_statement();
            if let Some(stmt) = o {
                proof {
                    lemma_stmts_model_push(statements@, stmt);
                }
                statements.push(stmt);
            }
            proof {
                self.lemma_wf_ok();
                lemma_advance_measure(self@);
            }
            self.next_token();
        }
        Some(BlockStatement { token, statements })
    }

    #[verifier::rlimit(60)]
    fn parse_if_statement(&mut self) -> (r: Option<Statement>)
        requires
            old(self).valid(),
            old(self)@.cur.ty != TokenType::Eof,
        ensures
            errors_grow(old(self)@, final(self)@),
            final(self).valid(),
            (opt_stmt_model(r), final(self)@) == parse_if(old(self)@),
            progress(old(self)@, final(self)@),
        decreases old(self)@.measure(), 8nat,
    {
        proof {
            self.lemma_wf_ok();
            lemma_advance_measure(self@);
        }
        let token = copy_token(&self.cur_token);
        if !self.expect_peek(TokenType::LeftParenthesis) {
            return None;
        }
        proof {
            self.lemma_wf_ok();
            lemma_advance_measure(self@);
        }
        self.next_token();
        let condition = match self.parse_expression(Precedence::Lowest) {
            Ok(val) => val,
            Err(e) => {
                self.push_error(e);
                return None;
            },
        };
        proof {
            self.lemma_wf_ok();
            lemma_advance_measure(self@);
        }
        if !self.expect_peek(TokenType::RightParenthesis) {
            return None;
        }
        proof {
            self.lemma_wf_ok();
            lemma_advance_measure(self@);
        }
        if !self.expect_peek(TokenType::LeftBrace) {
            return None;
        }
        let consequence = match self.parse_block_statement() {
            Some(b) => b,
            None => return None,
        };
        let mut alternative = None;
        if self.peek_token_is(&TokenType::Else) {
            proof {
                self.lemma_wf_ok();
                lemma_advance_measure(self@);
            }
            self.next_token();
            proof {
                self.lemma_wf_ok();
                lemma_advance_measure(self@);
            }
            if !self.expect_peek(TokenType::LeftBrace) {
                return None;
            }
            alternative = match self.parse_block_statement() {
                Some(b) => Some(b),
                None => return None,
            };
        }
        Some(Statement::If { token, condition, consequence, alternative })
    }

    #[verifier::rlimit(60)]
    fn parse_while_statement(&mut self) -> (r: Option<Statement>)
        requires
            old(self).valid(),
            old(self)@.cur.ty != TokenType::Eof,
        ensures
            errors_grow(old(self)@, final(self)@),
            final(self).valid(),
            (opt_stmt_model(r), final(self)@) == parse_while(old(self)@),
            progress(old(self)@, final(self)@),
        decreases old(self)@.measure(), 8nat,
    {
        proof {
            self.lemma_wf_ok();
            lemma_advance_measure(self@);
        }
        let token = copy_token(&self.cur_token);
        if !self.expect_peek(TokenType::LeftParenthesis) {
            return None;
        }
        proof {
            self.lemma_wf_ok();
            lemma_advance_measure(self@);
        }
        self.next_token();
        let condition = match self.parse_expression(Precedence::Lowest) {
            Ok(val) => val,
            Err(e) => {
                self.push_error(e);
                return None;
            },
        };
        proof {
            self.lemma_wf_ok();
            lemma_advance_measure(self@);
        }
        if !self.expect_peek(TokenType::RightParenthesis) {
            return None;
        }
        proof {
            self.lemma_wf_ok();
            lemma_advance_measure(self@);
        }
        if !self.expect_peek(TokenType::LeftBrace) {
            return None;
        }
        let body = match self.parse_block_statement() {
            Some(b) => b,
            None => return None,
        };
        Some(Statement::While { token, condition, body })
    }

    /// The initializer or the update of a `for`.
    fn parse_for_clause(&mut self) -> (r: Option<Statement>)
        requires
            old(self).valid(),
        ensures
            errors_grow(old(self)@, final(self)@),
            final(self).valid(),
            (opt_stmt_model(r), final(self)@) == parse_for_clause(old(self)@),
            final(self)@.measure() <= old(self)@.measure(),
        decreases old(self)@.measure(), 9nat,
    {
        let clause = if self.cur_token.token_type == TokenType::Const {
            self.parse_let_statement()
        } else {
            self.parse_expression_statement()
        };
        if self.cur_token.token_type != TokenType::Semicolon && self.peek_token_is(
            &TokenType::Semicolon,
        ) {
            proof {
                self.lemma_wf_ok();
                lemma_advance_measure(self@);
            }
            self.next_token();
        }
        clause
    }

    #[verifier::rlimit(100)]
    fn parse_for_statement(&mut self) -> (r: Option<Statement>)
        requires
            old(self).valid(),
            old(self)@.cur.ty != TokenType::Eof,
        ensures
            errors_grow(old(self)@, final(self)@),
            final(self).valid(),
            (opt_stmt_model(r), final(self)@) == parse_for(old(self)@),
            progress(old(self)@, final(self)@),
        decreases old(self)@.measure(), 8nat,
    {
        let ghost st = self@;
        proof {
            self.lemma_wf_ok();
            lemma_advance_measure(self@);
        }
        let token = copy_token(&self.cur_token);
        if !self.expect_peek(TokenType::LeftParenthesis) {
            return None;
        }
        proof {
            self.lemma_wf_ok();
            lemma_advance_measure(self@);
        }
        self.next_token();
        let mut initializer = None;
        if self.cur_token.token_type != TokenType::Semicolon {
            initializer = self.parse_for_clause();
        }
        if self.cur_token.token_type != TokenType::Semicolon {
            self.peek_error(TokenType::Semicolon);
            return None;
        }
        self.parse_for_condition(token, initializer)
    }

    /// The condition of a `for`, from the `;` after its initializer.
    #[verifier::rlimit(60)]
    fn parse_for_condition(&mut self, token: Token, initializer: Option<Statement>) -> (r: Option<
        Statement,
    >)
        requires
            old(self).valid(),
            old(self)@.cur.ty == TokenType::Semicolon,
        ensures
            errors_grow(old(self)@, final(self)@),
            final(self).valid(),
            (opt_stmt_model(r), final(self)@) == parse_for_condition(
                old(self)@,
                token@,
                opt_stmt_model(initializer),
            ),
            final(self)@.measure() < old(self)@.measure(),
        decreases old(self)@.measure(), 8nat,
    {
        proof {
            self.lemma_wf_ok();
            lemma_advance_measure(self@);
        }
        self.next_token();
        let mut condition = None;
        if self.cur_token.token_type != TokenType::Semicolon {
            condition = match self.parse_expression(Precedence::Lowest) {
                Ok(val) => Some(val),
                Err(e) => {
                    self.push_error(e);
                    return None;
                },
            };
            proof {
                self.lemma_wf_ok();
                lemma_advance_measure(self@);
            }
            if !self.expect_peek(TokenType::Semicolon) {
                return None;
            }
        }
        self.parse_for_rest(token, initializer, condition)
    }

    /// The rest of a `for`, from the `;` after its condition.
    #[verifier::rlimit(60)]
    fn parse_for_rest(
        &mut self,
        token: Token,
        initializer: Option<Statement>,
        condition: Option<Expression>,
    ) -> (r: Option<Statement>)
        requires
            old(self).valid(),
            old(self)@.cur.ty == TokenType::Semicolon,
        ensures
            errors_grow(old(self)@, final(self)@),
            final(self).valid(),
            (opt_stmt_model(r), final(self)@) == parse_for_rest(
                old(self)@,
                token@,
                opt_stmt_model(initializer),
                opt_expr_model(condition),
            ),
            final(self)@.measure() < old(self)@.measure(),
        decreases old(self)@.measure(), 8nat,
    {
        proof {
            self.lemma_wf_ok();
            lemma_advance_measure(self@);
        }
        self.next_token();
        let mut update = None;
        if self.cur_token.token_type != TokenType::RightParenthesis {
            update = self.parse_for_clause();
        }
        proof {
            self.lemma_wf_ok();
            lemma_advance_measure(self@);
        }
        if !self.expect_peek(TokenType::RightParenthesis) {
            return None;
        }
        proof {
            self.lemma_wf_ok();
            lemma_advance_measure(self@);
        }
        if !self.expect_peek(TokenType::LeftBrace) {
            return None;
        }
        let body = match self.parse_block_statement() {
            Some(b) => b,
            None => return None,
        };
        let initializer = match initializer {
            Some(i) => Some(Box::new(i)),
            None => None,
        };
        let update = match update {
            Some(u) => Some(Box::new(u)),
            None => None,
        };
        Some(Statement::For { token, initializer, condition, update, body })
    }
} // impl Parser

} // verus!
