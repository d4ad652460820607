//! Integer constant expressions of `#if` and `#elif`: tokens and their
//! evaluation.

use vstd::prelude::*;
use vstd::wrapping::i64_specs;

use crate::text::is_ascii_digit;

verus! {

/// An operator of a constant expression.
#[derive(Clone, Copy, Debug, PartialEq, Eq, Structural)]
pub enum Operator {
    LogicalOr,
    LogicalAnd,
    LogicalXor,
    BitOr,
    BitXor,
    BitAnd,
    Equal,
    NotEqual,
    Less,
    LessEqual,
    Greater,
    GreaterEqual,
    ShiftLeft,
    ShiftRight,
    Plus,
    Minus,
    Times,
    Divide,
    Modulo,
    BitNot,
    LogicalNot,
}

/// A token of a constant expression.
#[derive(Clone, Copy, Debug, PartialEq, Eq, Structural)]
pub enum Token {
    Number(i64),
    Op(Operator),
    LParen,
    RParen,
}

/// Value of `c` as a digit, for bases up to sixteen; sixteen for any other
/// character.
pub open spec fn digit_value(c: char) -> int {
    if '0' <= c && c <= '9' {
        c as u32 - '0' as u32
    } else if 'a' <= c && c <= 'f' {
        c as u32 - 'a' as u32 + 10
    } else if 'A' <= c && c <= 'F' {
        c as u32 - 'A' as u32 + 10
    } else {
        16
    }
}

/// Whether `c` is a digit in `base`.
pub open spec fn is_digit_in(c: char, base: int) -> bool {
    digit_value(c) < base
}

/// First position at or after `i` that holds no digit of `base`, or the end.
pub open spec fn skip_digits(s: Seq<char>, i: int, base: int) -> int
    decreases s.len() - i,
{
    if 0 <= i < s.len() && is_digit_in(s[i], base) {
        skip_digits(s, i + 1, base)
    } else {
        i
    }
}

/// The number that the digits of `s` from `start` up to `end` spell in
/// `base`.
pub open spec fn digits_value(s: Seq<char>, start: int, end: int, base: int) -> int
    decreases end - start,
{
    if start < end {
        digits_value(s, start, end - 1, base) * base + digit_value(s[end - 1])
    } else {
        0
    }
}

/// What the lexer reads at one position.
pub struct Lexeme {
    pub token: Token,
    /// Position after the token.
    pub next: int,
}

/// A number token whose digits stand from `start` up to `end`, or nothing
/// when there is no digit or the number does not fit in 64 signed bits.
pub open spec fn number_lexeme(s: Seq<char>, start: int, end: int, base: int) -> Option<Lexeme> {
    let v = digits_value(s, start, end, base);
    if start < end && v <= i64::MAX {
        Some(Lexeme { token: Token::Number(v as i64), next: end })
    } else {
        None
    }
}

/// The number literal at position `i`, which holds a decimal digit: `0x`
/// or `0X` opens a hexadecimal literal, `0` before an octal digit an octal
/// one, and anything else is decimal.
pub open spec fn number_at(s: Seq<char>, i: int) -> Option<Lexeme> {
    if s[i] == '0' && i + 1 < s.len() && (s[i + 1] == 'x' || s[i + 1] == 'X') {
        number_lexeme(s, i + 2, skip_digits(s, i + 2, 16), 16)
    } else if s[i] == '0' && i + 1 < s.len() && is_digit_in(s[i + 1], 8) {
        number_lexeme(s, i + 1, skip_digits(s, i + 1, 8), 8)
    } else {
        number_lexeme(s, i, skip_digits(s, i + 1, 10), 10)
    }
}

/// Whether position `i + 1` of `s` holds `c`.
pub open spec fn followed_by(s: Seq<char>, i: int, c: char) -> bool {
    i + 1 < s.len() && s[i + 1] == c
}

/// An operator token that ends before `next`.
pub open spec fn op_lexeme(op: Operator, next: int) -> Option<Lexeme> {
    Some(Lexeme { token: Token::Op(op), next })
}

/// The token at position `i` of `s`, the longest operator winning, or
/// nothing when no token starts there.
pub open spec fn lex_at(s: Seq<char>, i: int) -> Option<Lexeme>
    recommends
        0 <= i < s.len(),
{
    let c = s[i];
    if c == '(' {
        Some(Lexeme { token: Token::LParen, next: i + 1 })
    } else if c == ')' {
        Some(Lexeme { token: Token::RParen, next: i + 1 })
    } else if is_ascii_digit(c) {
        number_at(s, i)
    } else if c == '&' {
        if followed_by(s, i, '&') {
            op_lexeme(Operator::LogicalAnd, i + 2)
        } else {
            op_lexeme(Operator::BitAnd, i + 1)
        }
    } else if c == '|' {
        if followed_by(s, i, '|') {
            op_lexeme(Operator::LogicalOr, i + 2)
        } else {
            op_lexeme(Operator::BitOr, i + 1)
        }
    } else if c == '<' {
        if followed_by(s, i, '<') {
            op_lexeme(Operator::ShiftLeft, i + 2)
        } else if followed_by(s, i, '=') {
            op_lexeme(Operator::LessEqual, i + 2)
        } else {
            op_lexeme(Operator::Less, i + 1)
        }
    } else if c == '>' {
        if followed_by(s, i, '>') {
            op_lexeme(Operator::ShiftRight, i + 2)
        } else if followed_by(s, i, '=') {
            op_lexeme(Operator::GreaterEqual, i + 2)
        } else {
            op_lexeme(Operator::Greater, i + 1)
        }
    } else if c == '=' {
        if followed_by(s, i, '=') {
            op_lexeme(Operator::Equal, i + 2)
        } else {
            None
        }
    } else if c == '!' {
        if followed_by(s, i, '=') {
            op_lexeme(Operator::NotEqual, i + 2)
        } else {
            op_lexeme(Operator::LogicalNot, i + 1)
        }
    } else if c == '^' {
        if followed_by(s, i, '^') {
            op_lexeme(Operator::LogicalXor, i + 2)
        } else {
            op_lexeme(Operator::BitXor, i + 1)
        }
    } else if c == '+' {
        op_lexeme(Operator::Plus, i + 1)
    } else if c == '-' {
        op_lexeme(Operator::Minus, i + 1)
    } else if c == '*' {
        op_lexeme(Operator::Times, i + 1)
    } else if c == '/' {
        op_lexeme(Operator::Divide, i + 1)
    } else if c == '%' {
        op_lexeme(Operator::Modulo, i + 1)
    } else if c == '~' {
        op_lexeme(Operator::BitNot, i + 1)
    } else {
        None
    }
}

/// Skipping digits moves forward and stays inside the text.
pub proof fn lemma_skip_digits_bounds(s: Seq<char>, i: int, base: int)
    requires
        0 <= i <= s.len(),
    ensures
        i <= skip_digits(s, i, base) <= s.len(),
    decreases s.len() - i,
{
    if i < s.len() && is_digit_in(s[i], base) {
        lemma_skip_digits_bounds(s, i + 1, base);
    }
}

/// Every token is at least one character long and ends inside the text.
pub proof fn lemma_lex_advances(s: Seq<char>, i: int)
    requires
        0 <= i < s.len(),
    ensures
        lex_at(s, i) matches Some(l) ==> i < l.next <= s.len(),
{
    if i + 2 <= s.len() {
        lemma_skip_digits_bounds(s, i + 2, 16);
    }
    lemma_skip_digits_bounds(s, i + 1, 8);
    lemma_skip_digits_bounds(s, i + 1, 10);
}

/// The tokens of `s` from position `i` on, appended to `acc`, or nothing
/// when some position starts no token.
pub open spec fn tokens_from(s: Seq<char>, i: int, acc: Seq<Token>) -> Option<Seq<Token>>
    decreases s.len() - i,
{
    if 0 <= i < s.len() {
        match lex_at(s, i) {
            Some(l) => {
                proof {
                    lemma_lex_advances(s, i);
                }
                tokens_from(s, l.next, acc.push(l.token))
            },
            None => None,
        }
    } else {
        Some(acc)
    }
}

/// The tokens of `s`, or nothing when `s` is no sequence of tokens.
pub open spec fn tokens_of(s: Seq<char>) -> Option<Seq<Token>> {
    tokens_from(s, 0, Seq::empty())
}

/// The number spelled by more digits is not smaller, and never negative.
pub proof fn lemma_digits_value_monotone(s: Seq<char>, start: int, a: int, b: int, base: int)
    requires
        start <= a <= b,
        base >= 1,
    ensures
        0 <= digits_value(s, start, a, base) <= digits_value(s, start, b, base),
    decreases b - start,
{
    if start < b {
        if a < b {
            lemma_digits_value_monotone(s, start, a, b - 1, base);
            let v = digits_value(s, start, b - 1, base);
            assert(v * base >= v) by (nonlinear_arith)
                requires
                    v >= 0,
                    base >= 1,
            ;
        } else {
            lemma_digits_value_monotone(s, start, a - 1, b - 1, base);
            let v = digits_value(s, start, b - 1, base);
            assert(v * base >= 0) by (nonlinear_arith)
                requires
                    v >= 0,
                    base >= 1,
            ;
        }
    }
}

/// Value of `c` as a digit; sixteen if it is none.
pub fn digit_of(c: char) -> (d: u8)
    ensures
        d == digit_value(c),
{
    if '0' <= c && c <= '9' {
        (c as u32 - '0' as u32) as u8
    } else if 'a' <= c && c <= 'f' {
        (c as u32 - 'a' as u32 + 10) as u8
    } else if 'A' <= c && c <= 'F' {
        (c as u32 - 'A' as u32 + 10) as u8
    } else {
        16
    }
}

/// First position at or after `start` that holds no digit of `base`.
pub fn skip_digits_from(s: &[char], start: usize, base: u8) -> (r: usize)
    requires
        start <= s.len(),
    ensures
        r == skip_digits(s@, start as int, base as int),
        start <= r <= s.len(),
        forall|k: int| start <= k < r ==> is_digit_in(s@[k], base as int),
{
    let mut i: usize = start;
    while i < s.len() && digit_of(s[i]) < base
        invariant
            start <= i <= s.len(),
            skip_digits(s@, i as int, base as int) == skip_digits(s@, start as int, base as int),
            forall|k: int| start <= k < i ==> is_digit_in(s@[k], base as int),
        decreases s.len() - i,
    {
        i += 1;
    }
    i
}

/// The number token whose digits stand from `start` up to `end`.
pub fn read_number(s: &[char], start: usize, end: usize, base: u8) -> (r: Option<(Token, usize)>)
    requires
        start <= end <= s.len(),
        1 <= base <= 16,
        forall|k: int| start <= k < end ==> is_digit_in(s@[k], base as int),
    ensures
        match number_lexeme(s@, start as int, end as int, base as int) {
            Some(l) => r == Some((l.token, l.next as usize)) && l.next == end,
            None => r is None,
        },
{
    if start >= end {
        return None;
    }
    let mut acc: i64 = 0;
    let mut i: usize = start;
    while i < end
        invariant
            start <= i <= end <= s.len(),
            1 <= base <= 16,
            forall|k: int| start <= k < end ==> is_digit_in(s@[k], base as int),
            acc == digits_value(s@, start as int, i as int, base as int),
            acc >= 0,
        decreases end - i,
    {
        let d = digit_of(s[i]);
        proof {
            lemma_digits_value_monotone(s@, start as int, i + 1, end as int, base as int);
        }
        match acc.checked_mul(base as i64) {
            None => {
                return None;
            },
            Some(m) => {
                match m.checked_add(d as i64) {
                    None => {
                        return None;
                    },
                    Some(v) => {
                        assert(m >= 0) by (nonlinear_arith)
                            requires
                                m == acc * (base as i64),
                                acc >= 0,
                                base >= 1,
                        ;
                        acc = v;
                    },
                }
            },
        }
        i += 1;
    }
    Some((Token::Number(acc), end))
}

/// The token at position `i`.
pub fn lex(s: &[char], i: usize) -> (r: Option<(Token, usize)>)
    requires
        i < s.len(),
    ensures
        match lex_at(s@, i as int) {
            Some(l) => r == Some((l.token, l.next as usize)) && i < l.next <= s.len(),
            None => r is None,
        },
{
    proof {
        lemma_lex_advances(s@, i as int);
    }
    let c = s[i];
    let n = s.len();
    let has_next = i + 1 < n;
    if c == '(' {
        Some((Token::LParen, i + 1))
    } else if c == ')' {
        Some((Token::RParen, i + 1))
    } else if '0' <= c && c <= '9' {
        if c == '0' && has_next && (s[i + 1] == 'x' || s[i + 1] == 'X') {
            let end = skip_digits_from(s, i + 2, 16);
            read_number(s, i + 2, end, 16)
        } else if c == '0' && has_next && digit_of(s[i + 1]) < 8 {
            let end = skip_digits_from(s, i + 1, 8);
            read_number(s, i + 1, end, 8)
        } else {
            let end = skip_digits_from(s, i + 1, 10);
            read_number(s, i, end, 10)
        }
    } else if c == '&' {
        if has_next && s[i + 1] == '&' {
            Some((Token::Op(Operator::LogicalAnd), i + 2))
        } else {
            Some((Token::Op(Operator::BitAnd), i + 1))
        }
    } else if c == '|' {
        if has_next && s[i + 1] == '|' {
            Some((Token::Op(Operator::LogicalOr), i + 2))
        } else {
            Some((Token::Op(Operator::BitOr), i + 1))
        }
    } else if c == '<' {
        if has_next && s[i + 1] == '<' {
            Some((Token::Op(Operator::ShiftLeft), i + 2))
        } else if has_next && s[i + 1] == '=' {
            Some((Token::Op(Operator::LessEqual), i + 2))
        } else {
            Some((Token::Op(Operator::Less), i + 1))
        }
    } else if c == '>' {
        if has_next && s[i + 1] == '>' {
            Some((Token::Op(Operator::ShiftRight), i + 2))
        } else if has_next && s[i + 1] == '=' {
            Some((Token::Op(Operator::GreaterEqual), i + 2))
        } else {
            Some((Token::Op(Operator::Greater), i + 1))
        }
    } else if c == '=' {
        if has_next && s[i + 1] == '=' {
            Some((Token::Op(Operator::Equal), i + 2))
        } else {
            None
        }
    } else if c == '!' {
        if has_next && s[i + 1] == '=' {
            Some((Token::Op(Operator::NotEqual), i + 2))
        } else {
            Some((Token::Op(Operator::LogicalNot), i + 1))
        }
    } else if c == '^' {
        if has_next && s[i + 1] == '^' {
            Some((Token::Op(Operator::LogicalXor), i + 2))
        } else {
            Some((Token::Op(Operator::BitXor), i + 1))
        }
    } else if c == '+' {
        Some((Token::Op(Operator::Plus), i + 1))
    } else if c == '-' {
        Some((Token::Op(Operator::Minus), i + 1))
    } else if c == '*' {
        Some((Token::Op(Operator::Times), i + 1))
    } else if c == '/' {
        Some((Token::Op(Operator::Divide), i + 1))
    } else if c == '%' {
        Some((Token::Op(Operator::Modulo), i + 1))
    } else if c == '~' {
        Some((Token::Op(Operator::BitNot), i + 1))
    } else {
        None
    }
}

/// Splits an expression without whitespace into tokens; fails on a
/// character that starts no token and on a number that does not fit.
pub fn tokenize(s: &[char]) -> (r: Option<Vec<Token>>)
    ensures
        match r {
            Some(v) => tokens_of(s@) == Some(v@),
            None => tokens_of(s@) is None,
        },
{
    let mut out: Vec<Token> = Vec::new();
    let mut i: usize = 0;
    while i < s.len()
        invariant
            i <= s.len(),
            tokens_from(s@, i as int, out@) == tokens_of(s@),
        decreases s.len() - i,
    {
        match lex(s, i) {
            None => {
                return None;
            },
            Some((token, next)) => {
                out.push(token);
                i = next;
            },
        }
    }
    Some(out)
}

/// One for true, zero for false.
pub open spec fn truth(b: bool) -> i64 {
    if b {
        1
    } else {
        0
    }
}

/// Quotient of `x` by `d` rounded toward zero.
pub open spec fn quotient(x: int, d: int) -> int
    recommends
        d != 0,
{
    if x == 0 {
        0
    } else if x > 0 && d > 0 {
        x / d
    } else if x < 0 && d < 0 {
        (x * -1) / (d * -1)
    } else if x < 0 {
        ((x * -1) / d) * -1
    } else {
        (x / (d * -1)) * -1
    }
}

/// Remainder of `x` by `d` with the sign of `x`.
pub open spec fn remainder(x: int, d: int) -> int
    recommends
        d != 0,
{
    if x == 0 {
        0
    } else if x > 0 && d > 0 {
        x % d
    } else if x < 0 && d < 0 {
        ((x * -1) % (d * -1)) * -1
    } else if x < 0 {
        ((x * -1) % d) * -1
    } else {
        x % (d * -1)
    }
}

/// Wrapping division; a zero divisor gives zero.
pub open spec fn divided(l: i64, r: i64) -> i64 {
    if r == 0 {
        0
    } else if l == i64::MIN && r == -1 {
        i64::MIN
    } else {
        quotient(l as int, r as int) as i64
    }
}

/// Wrapping remainder; a zero divisor gives zero.
pub open spec fn modulo(l: i64, r: i64) -> i64 {
    if r == 0 {
        0
    } else if l == i64::MIN && r == -1 {
        0
    } else {
        remainder(l as int, r as int) as i64
    }
}

/// Precedence level of `op` as a binary operator, from zero for `||`, which
/// binds loosest, to ten for `* / %`; nothing for `~` and `!`.
pub open spec fn binary_level(op: Operator) -> Option<nat> {
    match op {
        Operator::LogicalOr => Some(0),
        Operator::LogicalAnd => Some(1),
        Operator::LogicalXor => Some(2),
        Operator::BitOr => Some(3),
        Operator::BitXor => Some(4),
        Operator::BitAnd => Some(5),
        Operator::Equal | Operator::NotEqual => Some(6),
        Operator::Less | Operator::LessEqual | Operator::Greater | Operator::GreaterEqual => Some(
            7,
        ),
        Operator::ShiftLeft | Operator::ShiftRight => Some(8),
        Operator::Plus | Operator::Minus => Some(9),
        Operator::Times | Operator::Divide | Operator::Modulo => Some(10),
        Operator::BitNot | Operator::LogicalNot => None,
    }
}

/// Value of `l op r`. Arithmetic wraps, a shift count is taken modulo 64
/// from the low 32 bits of `r`, and comparisons and logical operators give
/// one or zero.
pub open spec fn apply_binary(op: Operator, l: i64, r: i64) -> i64 {
    match op {
        Operator::LogicalOr => truth(l != 0 || r != 0),
        Operator::LogicalAnd => truth(l != 0 && r != 0),
        Operator::LogicalXor => truth((l != 0) != (r != 0)),
        Operator::BitOr => l | r,
        Operator::BitXor => l ^ r,
        Operator::BitAnd => l & r,
        Operator::Equal => truth(l == r),
        Operator::NotEqual => truth(l != r),
        Operator::Less => truth(l < r),
        Operator::LessEqual => truth(l <= r),
        Operator::Greater => truth(l > r),
        Operator::GreaterEqual => truth(l >= r),
        Operator::ShiftLeft => i64_specs::wrapping_shl(l, r as u32),
        Operator::ShiftRight => i64_specs::wrapping_shr(l, r as u32),
        Operator::Plus => i64_specs::wrapping_add(l, r),
        Operator::Minus => i64_specs::wrapping_sub(l, r),
        Operator::Times => i64_specs::wrapping_mul(l, r),
        Operator::Divide => divided(l, r),
        Operator::Modulo => modulo(l, r),
        Operator::BitNot | Operator::LogicalNot => 0,
    }
}

/// A value together with the number of tokens that were read for it.
pub struct Parsed {
    pub value: i64,
    pub used: nat,
}

/// Number of tokens from position `i` to the end.
pub open spec fn tokens_left(tokens: Seq<Token>, i: int) -> nat {
    if i < tokens.len() {
        (tokens.len() - i) as nat
    } else {
        0
    }
}

/// A primary expression at position `i`: a number, or a parenthesized
/// expression whose closing parenthesis may be missing. Any other token is
/// read as zero, and so is the end of the tokens.
pub open spec fn parse_primary(tokens: Seq<Token>, i: int) -> Parsed
    decreases tokens_left(tokens, i), 0int,
{
    if 0 <= i < tokens.len() {
        match tokens[i] {
            Token::Number(n) => Parsed { value: n, used: 1 },
            Token::LParen => {
                let inner = parse_level(tokens, i + 1, 0);
                let close = i + 1 + inner.used;
                if close < tokens.len() && tokens[close] == Token::RParen {
                    Parsed { value: inner.value, used: inner.used + 2 }
                } else {
                    Parsed { value: inner.value, used: inner.used + 1 }
                }
            },
            _ => Parsed { value: 0, used: 1 },
        }
    } else {
        Parsed { value: 0, used: 0 }
    }
}

/// A unary expression at position `i`: any number of `~ ! - +` before a
/// primary expression.
pub open spec fn parse_unary(tokens: Seq<Token>, i: int) -> Parsed
    decreases tokens_left(tokens, i), 1int,
{
    if 0 <= i < tokens.len() {
        match tokens[i] {
            Token::Op(Operator::BitNot) => {
                let p = parse_unary(tokens, i + 1);
                Parsed { value: !p.value, used: p.used + 1 }
            },
            Token::Op(Operator::LogicalNot) => {
                let p = parse_unary(tokens, i + 1);
                Parsed { value: truth(p.value == 0), used: p.used + 1 }
            },
            Token::Op(Operator::Minus) => {
                let p = parse_unary(tokens, i + 1);
                Parsed { value: i64_specs::wrapping_sub(0, p.value), used: p.used + 1 }
            },
            Token::Op(Operator::Plus) => {
                let p = parse_unary(tokens, i + 1);
                Parsed { value: p.value, used: p.used + 1 }
            },
            _ => parse_primary(tokens, i),
        }
    } else {
        Parsed { value: 0, used: 0 }
    }
}

/// Twice the number of binary levels from `level` up.
pub open spec fn levels_above(level: nat) -> int {
    if level <= 10 {
        2 * (11 - level)
    } else {
        0
    }
}

/// The operator at position `i` if it is a binary operator of `level`.
pub open spec fn operator_at(tokens: Seq<Token>, i: int, level: nat) -> Option<Operator> {
    if 0 <= i < tokens.len() {
        match tokens[i] {
            Token::Op(op) => if binary_level(op) == Some(level) {
                Some(op)
            } else {
                None
            },
            _ => None,
        }
    } else {
        None
    }
}

/// Continues a left-associative chain of `level` whose value so far is
/// `left` and whose next operator, if any, stands at position `i`.
pub open spec fn parse_chain(tokens: Seq<Token>, i: int, level: nat, left: i64) -> Parsed
    decreases tokens_left(tokens, i), levels_above(level) + 2,
{
    if level > 10 {
        Parsed { value: left, used: 0 }
    } else {
        match operator_at(tokens, i, level) {
            Some(op) => {
                let right = parse_level(tokens, i + 1, level + 1);
                let rest = parse_chain(
                    tokens,
                    i + 1 + right.used,
                    level,
                    apply_binary(op, left, right.value),
                );
                Parsed { value: rest.value, used: 1 + right.used + rest.used }
            },
            None => Parsed { value: left, used: 0 },
        }
    }
}

/// An expression of precedence `level` at position `i`: operands of the
/// next level joined by the operators of this one; above level ten, a unary
/// expression.
pub open spec fn parse_level(tokens: Seq<Token>, i: int, level: nat) -> Parsed
    decreases tokens_left(tokens, i), levels_above(level) + 3,
{
    if level > 10 {
        parse_unary(tokens, i)
    } else {
        let first = parse_level(tokens, i, level + 1);
        let rest = parse_chain(tokens, i + first.used, level, first.value);
        Parsed { value: rest.value, used: first.used + rest.used }
    }
}

/// Whether the tokens are one whole expression with a value other than
/// zero. No tokens at all, and tokens left over after the expression, give
/// false.
pub open spec fn tokens_true(tokens: Seq<Token>) -> bool {
    let p = parse_level(tokens, 0, 0);
    tokens.len() > 0 && p.used == tokens.len() && p.value != 0
}

/// A quotient of 64-bit operands fits in 64 bits unless it is
/// `i64::MIN / -1`; a remainder always fits.
pub proof fn lemma_quotient_fits(x: int, d: int)
    requires
        i64::MIN <= x <= i64::MAX,
        i64::MIN <= d <= i64::MAX,
        d != 0,
    ensures
        !(x == i64::MIN && d == -1) ==> i64::MIN <= quotient(x, d) <= i64::MAX,
        x == i64::MIN && d == -1 ==> quotient(x, d) > i64::MAX,
        i64::MIN <= remainder(x, d) <= i64::MAX,
{
    let ax = if x < 0 {
        x * -1
    } else {
        x
    };
    let ad = if d < 0 {
        d * -1
    } else {
        d
    };
    assert(0 <= ax / ad <= ax && (ad >= 2 ==> 2 * (ax / ad) <= ax) && (ad == 1 ==> ax / ad == ax)
        && 0 <= ax % ad < ad)
        by (nonlinear_arith)
        requires
            ax >= 0,
            ad >= 1,
    ;
}

/// Precedence level of `op` as a binary operator.
pub fn level_of(op: Operator) -> (r: Option<u8>)
    ensures
        match binary_level(op) {
            Some(l) => r == Some(l as u8) && l <= 10,
            None => r is None,
        },
{
    match op {
        Operator::LogicalOr => Some(0),
        Operator::LogicalAnd => Some(1),
        Operator::LogicalXor => Some(2),
        Operator::BitOr => Some(3),
        Operator::BitXor => Some(4),
        Operator::BitAnd => Some(5),
        Operator::Equal | Operator::NotEqual => Some(6),
        Operator::Less | Operator::LessEqual | Operator::Greater | Operator::GreaterEqual => Some(
            7,
        ),
        Operator::ShiftLeft | Operator::ShiftRight => Some(8),
        Operator::Plus | Operator::Minus => Some(9),
        Operator::Times | Operator::Divide | Operator::Modulo => Some(10),
        Operator::BitNot | Operator::LogicalNot => None,
    }
}

/// One for true, zero for false.
fn truth_of(b: bool) -> (v: i64)
    ensures
        v == truth(b),
{
    if b {
        1
    } else {
        0
    }
}

/// Applies a binary operator.
pub fn apply(op: Operator, l: i64, r: i64) -> (v: i64)
    ensures
        v == apply_binary(op, l, r),
{
    match op {
        Operator::LogicalOr => truth_of(l != 0 || r != 0),
        Operator::LogicalAnd => truth_of(l != 0 && r != 0),
        Operator::LogicalXor => truth_of((l != 0) != (r != 0)),
        Operator::BitOr => l | r,
        Operator::BitXor => l ^ r,
        Operator::BitAnd => l & r,
        Operator::Equal => truth_of(l == r),
        Operator::NotEqual => truth_of(l != r),
        Operator::Less => truth_of(l < r),
        Operator::LessEqual => truth_of(l <= r),
        Operator::Greater => truth_of(l > r),
        Operator::GreaterEqual => truth_of(l >= r),
        Operator::ShiftLeft => l.wrapping_shl(
            #[verifier::truncate]
            (r as u32),
        ),
        Operator::ShiftRight => l.wrapping_shr(
            #[verifier::truncate]
            (r as u32),
        ),
        Operator::Plus => l.wrapping_add(r),
        Operator::Minus => l.wrapping_sub(r),
        Operator::Times => l.wrapping_mul(r),
        Operator::Divide => {
            if r == 0 {
                0
            } else {
                proof {
                    lemma_quotient_fits(l as int, r as int);
                }
                match l.checked_div(r) {
                    Some(q) => q,
                    None => i64::MIN,
                }
            }
        },
        Operator::Modulo => {
            if r == 0 {
                0
            } else {
                proof {
                    lemma_quotient_fits(l as int, r as int);
                }
                match l.checked_rem(r) {
                    Some(q) => q,
                    None => 0,
                }
            }
        },
        Operator::BitNot | Operator::LogicalNot => 0,
    }
}

/// The binary operator of `level` at position `i`, if there is one.
fn operator_here(tokens: &[Token], i: usize, level: u8) -> (r: Option<Operator>)
    requires
        level <= 10,
    ensures
        r == operator_at(tokens@, i as int, level as nat),
{
    if i < tokens.len() {
        match tokens[i] {
            Token::Op(op) => {
                match level_of(op) {
                    Some(l) => if l == level {
                        Some(op)
                    } else {
                        None
                    },
                    None => None,
                }
            },
            _ => None,
        }
    } else {
        None
    }
}

/// Evaluates a primary expression at position `i`; returns its value and
/// the position after it.
pub fn eval_primary(tokens: &[Token], i: usize) -> (r: (i64, usize))
    requires
        i <= tokens.len(),
    ensures
        r.0 == parse_primary(tokens@, i as int).value,
        r.1 == i + parse_primary(tokens@, i as int).used,
        r.1 <= tokens.len(),
    decreases tokens_left(tokens@, i as int), 0int,
{
    if i >= tokens.len() {
        return (0, i);
    }
    match tokens[i] {
        Token::Number(n) => (n, i + 1),
        Token::LParen => {
            let (value, close) = eval_level(tokens, i + 1, 0);
            if close < tokens.len() && tokens[close] == Token::RParen {
                (value, close + 1)
            } else {
                (value, close)
            }
        },
        _ => (0, i + 1),
    }
}

/// Evaluates a unary expression at position `i`.
pub fn eval_unary(tokens: &[Token], i: usize) -> (r: (i64, usize))
    requires
        i <= tokens.len(),
    ensures
        r.0 == parse_unary(tokens@, i as int).value,
        r.1 == i + parse_unary(tokens@, i as int).used,
        r.1 <= tokens.len(),
    decreases tokens_left(tokens@, i as int), 1int,
{
    if i >= tokens.len() {
        return (0, i);
    }
    match tokens[i] {
        Token::Op(Operator::BitNot) => {
            let (v, next) = eval_unary(tokens, i + 1);
            (!v, next)
        },
        Token::Op(Operator::LogicalNot) => {
            let (v, next) = eval_unary(tokens, i + 1);
            (truth_of(v == 0), next)
        },
        Token::Op(Operator::Minus) => {
            let (v, next) = eval_unary(tokens, i + 1);
            (0i64.wrapping_sub(v), next)
        },
        Token::Op(Operator::Plus) => {
            let (v, next) = eval_unary(tokens, i + 1);
            (v, next)
        },
        _ => eval_primary(tokens, i),
    }
}

/// Evaluates an expression of precedence `level` at position `i`.
pub fn eval_level(tokens: &[Token], i: usize, level: u8) -> (r: (i64, usize))
    requires
        i <= tokens.len(),
    ensures
        r.0 == parse_level(tokens@, i as int, level as nat).value,
        r.1 == i + parse_level(tokens@, i as int, level as nat).used,
        r.1 <= tokens.len(),
    decreases tokens_left(tokens@, i as int), levels_above(level as nat) + 3,
{
    if level > 10 {
        return eval_unary(tokens, i);
    }
    let (first, start) = eval_level(tokens, i, level + 1);
    let mut left = first;
    let mut j = start;
    let mut next_op = operator_here(tokens, j, level);
    while next_op.is_some()
        invariant
            level <= 10,
            i <= j <= tokens.len(),
            next_op == operator_at(tokens@, j as int, level as nat),
            parse_level(tokens@, i as int, level as nat).value == parse_chain(
                tokens@,
                j as int,
                level as nat,
                left,
            ).value,
            i + parse_level(tokens@, i as int, level as nat).used == j + parse_chain(
                tokens@,
                j as int,
                level as nat,
                left,
            ).used,
        decreases tokens.len() - j,
    {
        let op = next_op.unwrap();
        let (right, after) = eval_level(tokens, j + 1, level + 1);
        left = apply(op, left, right);
        j = after;
        next_op = operator_here(tokens, j, level);
    }
    (left, j)
}

/// Whether the tokens form one whole expression whose value is not zero.
pub fn evaluate_tokens(tokens: &[Token]) -> (r: bool)
    ensures
        r == tokens_true(tokens@),
{
    if tokens.len() == 0 {
        return false;
    }
    let (value, end) = eval_level(tokens, 0, 0);
    end == tokens.len() && value != 0
}

/// Whether the token at position `j`, if there is one, is no binary operator
/// of `level` or above.
spec fn binds_below(tokens: Seq<Token>, j: int, level: nat) -> bool {
    j >= tokens.len() || match tokens[j] {
        Token::Op(op) => match binary_level(op) {
            Some(l) => l < level,
            None => true,
        },
        _ => true,
    }
}

/// An operand that is a single number is read as that number at every
/// level above the operator that follows it.
proof fn lemma_number_operand(tokens: Seq<Token>, i: int, level: nat, n: i64)
    requires
        0 <= i < tokens.len(),
        tokens[i] == Token::Number(n),
        level <= 11,
        binds_below(tokens, i + 1, level),
    ensures
        parse_level(tokens, i, level) == (Parsed { value: n, used: 1 }),
    decreases 11 - level,
{
    if level <= 10 {
        lemma_number_operand(tokens, i, level + 1, n);
        assert(operator_at(tokens, i + 1, level) is None);
        assert(parse_chain(tokens, i + 1, level, n) == (Parsed { value: n, used: 0 }));
    } else {
        assert(parse_primary(tokens, i) == (Parsed { value: n, used: 1 }));
        assert(parse_unary(tokens, i) == (Parsed { value: n, used: 1 }));
    }
}

/// In `a + b * c == d` the product is taken first, then the sum, then the
/// comparison.
pub proof fn lemma_product_sum_comparison(a: i64, b: i64, c: i64, d: i64)
    ensures
        tokens_true(
            seq![
                Token::Number(a),
                Token::Op(Operator::Plus),
                Token::Number(b),
                Token::Op(Operator::Times),
                Token::Number(c),
                Token::Op(Operator::Equal),
                Token::Number(d),
            ],
        ) == (i64_specs::wrapping_add(a, i64_specs::wrapping_mul(b, c)) == d),
{
    let t = seq![
        Token::Number(a),
        Token::Op(Operator::Plus),
        Token::Number(b),
        Token::Op(Operator::Times),
        Token::Number(c),
        Token::Op(Operator::Equal),
        Token::Number(d),
    ];
    let product = i64_specs::wrapping_mul(b, c);
    let sum = i64_specs::wrapping_add(a, product);
    // operands
    lemma_number_operand(t, 0, 10, a);
    assert(parse_chain(t, 1, 10, a) == (Parsed { value: a, used: 0 }));
    assert(parse_level(t, 0, 10) == (Parsed { value: a, used: 1 }));
    lemma_number_operand(t, 2, 11, b);
    lemma_number_operand(t, 4, 11, c);
    lemma_number_operand(t, 6, 7, d);
    // b * c
    assert(parse_chain(t, 5, 10, product) == (Parsed { value: product, used: 0 }));
    assert(parse_chain(t, 3, 10, b) == (Parsed { value: product, used: 2 }));
    assert(parse_level(t, 2, 10) == (Parsed { value: product, used: 3 }));
    // a + b * c
    assert(parse_chain(t, 5, 9, sum) == (Parsed { value: sum, used: 0 }));
    assert(parse_chain(t, 1, 9, a) == (Parsed { value: sum, used: 4 }));
    assert(parse_level(t, 0, 9) == (Parsed { value: sum, used: 5 }));
    assert(parse_chain(t, 5, 8, sum) == (Parsed { value: sum, used: 0 }));
    assert(parse_level(t, 0, 8) == (Parsed { value: sum, used: 5 }));
    assert(parse_chain(t, 5, 7, sum) == (Parsed { value: sum, used: 0 }));
    assert(parse_level(t, 0, 7) == (Parsed { value: sum, used: 5 }));
    // ... == d
    assert(parse_chain(t, 7, 6, truth(sum == d)) == (Parsed { value: truth(sum == d), used: 0 }));
    assert(parse_chain(t, 5, 6, sum) == (Parsed { value: truth(sum == d), used: 2 }));
    assert(parse_level(t, 0, 6) == (Parsed { value: truth(sum == d), used: 7 }));
    lemma_whole_expression(t, 0, 5, truth(sum == d));
}

/// An expression that uses all tokens at one level uses them at every
/// lower level too.
proof fn lemma_whole_expression(tokens: Seq<Token>, i: int, level: nat, v: i64)
    requires
        0 <= i <= tokens.len(),
        level <= 10,
        parse_level(tokens, i, level + 1) == (Parsed {
            value: v,
            used: (tokens.len() - i) as nat,
        }),
    ensures
        parse_level(tokens, i, 0) == (Parsed { value: v, used: (tokens.len() - i) as nat }),
    decreases level,
{
    assert(operator_at(tokens, tokens.len() as int, level) is None);
    assert(parse_chain(tokens, tokens.len() as int, level, v) == (Parsed { value: v, used: 0 }));
    assert(parse_level(tokens, i, level) == (Parsed {
        value: v,
        used: (tokens.len() - i) as nat,
    }));
    if level > 0 {
        lemma_whole_expression(tokens, i, (level - 1) as nat, v);
    }
}

} // verus!
