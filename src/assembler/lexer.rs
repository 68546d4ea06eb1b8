use vstd::prelude::*;

use super::symbols::{insert_spec, Slots, SymbolId, SymbolKind, SymbolTable};
use crate::opcode::{op_name, Op};
use crate::register::{reg_name, Register};
use crate::text::{chars_of, string_of};

verus! {

/// What a token is.
#[derive(Debug, Clone, Copy, PartialEq, Eq, Structural, Default)]
pub enum TokensKind {
    Mnemonic(Op),
    Register(Register),
    Imm(i32),
    Label(SymbolId),
    Directive(SymbolId),
    Error(SymbolId),
    /// A macro parameter reference, counted from zero.
    Param(usize),
    Comment,
    Comma,
    Semi,
    Newline,
    #[default]
    Eof,
}

/// A token and the line it was read on.
#[derive(Debug, Clone, Copy, PartialEq, Eq, Structural, Default)]
pub struct Token {
    pub kind: TokensKind,
    pub line: usize,
}

/// The token was not of the kind asked for.
#[derive(Debug, Clone, Copy, PartialEq, Eq, Structural)]
pub enum TokenError {
    NotRegister,
    NotMnemonic,
    NotImmediate,
    NotSymbol,
    NotParam,
}

impl TokensKind {
    /// The register of a `Register` token.
    pub fn get_reg(&self) -> (r: Result<Register, TokenError>)
        ensures
            match *self {
                TokensKind::Register(reg) => r == Ok::<Register, TokenError>(reg),
                _ => r == Err::<Register, TokenError>(TokenError::NotRegister),
            },
    {
        match *self {
            TokensKind::Register(r) => Ok(r),
            _ => Err(TokenError::NotRegister),
        }
    }

    /// The operation of a `Mnemonic` token.
    pub fn get_op(&self) -> (r: Result<Op, TokenError>)
        ensures
            match *self {
                TokensKind::Mnemonic(op) => r == Ok::<Op, TokenError>(op),
                _ => r == Err::<Op, TokenError>(TokenError::NotMnemonic),
            },
    {
        match *self {
            TokensKind::Mnemonic(op) => Ok(op),
            _ => Err(TokenError::NotMnemonic),
        }
    }

    /// The value of an `Imm` token.
    pub fn get_imm(&self) -> (r: Result<i32, TokenError>)
        ensures
            match *self {
                TokensKind::Imm(i) => r == Ok::<i32, TokenError>(i),
                _ => r == Err::<i32, TokenError>(TokenError::NotImmediate),
            },
    {
        match *self {
            TokensKind::Imm(i) => Ok(i),
            _ => Err(TokenError::NotImmediate),
        }
    }

    /// The symbol of a `Label`, `Error` or `Directive` token.
    pub fn get_sym(&self) -> (r: Result<SymbolId, TokenError>)
        ensures
            r == sym_of(*self),
    {
        match *self {
            TokensKind::Label(s) | TokensKind::Error(s) | TokensKind::Directive(s) => Ok(s),
            _ => Err(TokenError::NotSymbol),
        }
    }

    /// Whether this is a `Param` token.
    pub fn is_param(&self) -> (r: bool)
        ensures
            r == (*self is Param),
    {
        matches!(*self, TokensKind::Param(_))
    }

    /// The index of a `Param` token.
    pub fn get_param(&self) -> (r: Result<usize, TokenError>)
        ensures
            match *self {
                TokensKind::Param(i) => r == Ok::<usize, TokenError>(i),
                _ => r == Err::<usize, TokenError>(TokenError::NotParam),
            },
    {
        match *self {
            TokensKind::Param(i) => Ok(i),
            _ => Err(TokenError::NotParam),
        }
    }
}

/// The symbol a token carries.
pub open spec fn sym_of(k: TokensKind) -> Result<SymbolId, TokenError> {
    match k {
        TokensKind::Label(s) | TokensKind::Error(s) | TokensKind::Directive(s) => Ok(s),
        _ => Err(TokenError::NotSymbol),
    }
}

/// Sets of characters that the lexer reads runs of.
#[derive(Debug, Clone, Copy, PartialEq, Eq, Structural)]
pub enum CharClass {
    /// Tab, carriage return, space.
    Blank,
    /// Hexadecimal digits and `x`.
    HexOrX,
    /// ASCII letters, digits and `_`.
    Ident,
    /// ASCII letters and digits.
    Alnum,
    /// Anything but a newline.
    NotNewline,
    /// Anything but ASCII whitespace.
    NotSpace,
}

pub open spec fn is_digit(c: char) -> bool {
    '0' <= c <= '9'
}

pub open spec fn is_alpha(c: char) -> bool {
    ('a' <= c <= 'z') || ('A' <= c <= 'Z')
}

pub open spec fn is_space(c: char) -> bool {
    c == ' ' || c == '\t' || c == '\n' || c == '\r' || c == '\x0b' || c == '\x0c'
}

pub open spec fn class_has(cls: CharClass, c: char) -> bool {
    match cls {
        CharClass::Blank => c == '\t' || c == '\r' || c == ' ',
        CharClass::HexOrX => is_digit(c) || ('a' <= c <= 'f') || ('A' <= c <= 'F') || c == 'x',
        CharClass::Ident => is_alpha(c) || is_digit(c) || c == '_',
        CharClass::Alnum => is_alpha(c) || is_digit(c),
        CharClass::NotNewline => c != '\n',
        CharClass::NotSpace => !is_space(c),
    }
}

/// Whether `c` is in the class.
pub fn in_class(cls: CharClass, c: char) -> (r: bool)
    ensures
        r == class_has(cls, c),
{
    match cls {
        CharClass::Blank => c == '\t' || c == '\r' || c == ' ',
        CharClass::HexOrX => ('0' <= c && c <= '9') || ('a' <= c && c <= 'f') || ('A' <= c && c
            <= 'F') || c == 'x',
        CharClass::Ident => ('a' <= c && c <= 'z') || ('A' <= c && c <= 'Z') || ('0' <= c && c
            <= '9') || c == '_',
        CharClass::Alnum => ('a' <= c && c <= 'z') || ('A' <= c && c <= 'Z') || ('0' <= c && c
            <= '9'),
        CharClass::NotNewline => c != '\n',
        CharClass::NotSpace => !(c == ' ' || c == '\t' || c == '\n' || c == '\r' || c == '\x0b'
            || c == '\x0c'),
    }
}

/// The end of the run of characters of `cls` that starts at `pos`.
pub open spec fn span(src: Seq<char>, pos: int, cls: CharClass) -> int
    decreases src.len() - pos,
{
    if pos < 0 || pos >= src.len() || !class_has(cls, src[pos]) {
        pos
    } else {
        span(src, pos + 1, cls)
    }
}

pub proof fn lemma_span_bounds(src: Seq<char>, pos: int, cls: CharClass)
    requires
        0 <= pos <= src.len(),
    ensures
        pos <= span(src, pos, cls) <= src.len(),
        forall|i: int| pos <= i < span(src, pos, cls) ==> class_has(cls, #[trigger] src[i]),
        span(src, pos, cls) < src.len() ==> !class_has(cls, src[span(src, pos, cls)]),
    decreases src.len() - pos,
{
    if pos < src.len() && class_has(cls, src[pos]) {
        lemma_span_bounds(src, pos + 1, cls);
    }
}

/// `a` is `b`, but for upper-case ASCII letters in `a` where `b` has their lower case.
pub open spec fn eq_fold(a: char, b: char) -> bool {
    a == b || ('A' <= a <= 'Z' && a as u32 + 32 == b as u32)
}

/// `s` spells the lower-case word `w`, in any case.
pub open spec fn spells(s: Seq<char>, w: Seq<char>) -> bool {
    s.len() == w.len() && forall|i: int| 0 <= i < s.len() ==> eq_fold(#[trigger] s[i], w[i])
}

/// The register that `s` names, in any case.
pub open spec fn reg_named(s: Seq<char>) -> Option<Register> {
    if spells(s, reg_name(Register::R0)) {
        Some(Register::R0)
    } else if spells(s, reg_name(Register::R1)) {
        Some(Register::R1)
    } else if spells(s, reg_name(Register::R2)) {
        Some(Register::R2)
    } else if spells(s, reg_name(Register::R3)) {
        Some(Register::R3)
    } else if spells(s, reg_name(Register::SP)) {
        Some(Register::SP)
    } else if spells(s, reg_name(Register::PC)) {
        Some(Register::PC)
    } else if spells(s, reg_name(Register::BP)) {
        Some(Register::BP)
    } else if spells(s, reg_name(Register::FLAGS)) {
        Some(Register::FLAGS)
    } else {
        None
    }
}

/// The operation that `s` names, in any case.
pub open spec fn op_named(s: Seq<char>) -> Option<Op> {
    if spells(s, op_name(Op::Nop)) {
        Some(Op::Nop)
    } else if spells(s, op_name(Op::Add)) {
        Some(Op::Add)
    } else if spells(s, op_name(Op::Sub)) {
        Some(Op::Sub)
    } else if spells(s, op_name(Op::Mul)) {
        Some(Op::Mul)
    } else if spells(s, op_name(Op::Div)) {
        Some(Op::Div)
    } else if spells(s, op_name(Op::Ldr)) {
        Some(Op::Ldr)
    } else if spells(s, op_name(Op::Push)) {
        Some(Op::Push)
    } else if spells(s, op_name(Op::Pop)) {
        Some(Op::Pop)
    } else {
        None
    }
}


/// `c` is a digit in base 10 or 16.
pub open spec fn is_digit_in(c: char, base: int) -> bool {
    if base == 16 {
        is_digit(c) || ('a' <= c <= 'f') || ('A' <= c <= 'F')
    } else {
        is_digit(c)
    }
}

/// The value of a digit.
pub open spec fn digit_value(c: char) -> int {
    if is_digit(c) {
        c as int - '0' as int
    } else if 'a' <= c <= 'f' {
        c as int - 'a' as int + 10
    } else {
        c as int - 'A' as int + 10
    }
}

pub open spec fn all_digits(s: Seq<char>, base: int) -> bool {
    forall|i: int| 0 <= i < s.len() ==> is_digit_in(#[trigger] s[i], base)
}

/// The number that the digits of `s` spell in `base`, most significant first.
pub open spec fn digits_value(s: Seq<char>, base: int) -> int
    decreases s.len(),
{
    if s.len() == 0 {
        0
    } else {
        digits_value(s.drop_last(), base) * base + digit_value(s.last())
    }
}

/// The number that `s` spells, if it is a non-empty run of digits in `base` whose value is
/// at most `limit`.
pub open spec fn number_of(s: Seq<char>, base: int, limit: int) -> Option<int> {
    if s.len() > 0 && all_digits(s, base) && digits_value(s, base) <= limit {
        Some(digits_value(s, base))
    } else {
        None
    }
}

/// The value of an immediate's text: hexadecimal after a leading `0x`, else decimal;
/// it must fit an `i32`.
pub open spec fn parse_imm(s: Seq<char>) -> Option<i32> {
    let r = if s.len() >= 2 && s[0] == '0' && s[1] == 'x' {
        number_of(s.subrange(2, s.len() as int), 16, i32::MAX as int)
    } else {
        number_of(s, 10, i32::MAX as int)
    };
    match r {
        Some(v) => Some(v as i32),
        None => None,
    }
}

/// The zero-based index of a parameter reference whose text after `%` is `s`: a decimal
/// number of at least one.
pub open spec fn parse_param(s: Seq<char>) -> Option<usize> {
    match number_of(s, 10, usize::MAX as int) {
        Some(v) => if v >= 1 {
            Some((v - 1) as usize)
        } else {
            None
        },
        None => None,
    }
}

proof fn lemma_digits_value_nonneg(s: Seq<char>, base: int)
    requires
        all_digits(s, base),
        base == 10 || base == 16,
    ensures
        digits_value(s, base) >= 0,
    decreases s.len(),
{
    if s.len() > 0 {
        assert(all_digits(s.drop_last(), base));
        lemma_digits_value_nonneg(s.drop_last(), base);
        assert(is_digit_in(s.last(), base));
        assert(digits_value(s.drop_last(), base) * base >= 0) by (nonlinear_arith)
            requires
                digits_value(s.drop_last(), base) >= 0,
                base >= 0,
        ;
    }
}

proof fn lemma_digits_value_prefix(s: Seq<char>, i: int, base: int)
    requires
        all_digits(s, base),
        0 <= i <= s.len(),
        base == 10 || base == 16,
    ensures
        digits_value(s.take(i), base) <= digits_value(s, base),
    decreases s.len() - i,
{
    if i < s.len() {
        lemma_digits_value_prefix(s, i + 1, base);
        let p = s.take(i + 1);
        assert(p.drop_last() =~= s.take(i));
        assert(all_digits(s.take(i), base));
        lemma_digits_value_nonneg(s.take(i), base);
        assert(is_digit_in(p.last(), base));
        let a = digits_value(s.take(i), base);
        assert(a <= a * base + digit_value(p.last())) by (nonlinear_arith)
            requires
                a >= 0,
                base >= 1,
                digit_value(p.last()) >= 0,
        ;
    } else {
        assert(s.take(i) =~= s);
    }
}

fn digit_in(c: char, base: u64) -> (r: Option<u64>)
    requires
        base == 10 || base == 16,
    ensures
        is_digit_in(c, base as int) ==> r == Some(digit_value(c) as u64),
        !is_digit_in(c, base as int) ==> r is None,
        r is Some ==> r->Some_0 < base,
{
    if '0' <= c && c <= '9' {
        Some((c as u32 - '0' as u32) as u64)
    } else if base == 16 && 'a' <= c && c <= 'f' {
        Some((c as u32 - 'a' as u32 + 10) as u64)
    } else if base == 16 && 'A' <= c && c <= 'F' {
        Some((c as u32 - 'A' as u32 + 10) as u64)
    } else {
        None
    }
}

/// The number that `v[lo..hi]` spells in `base`, if it is a non-empty run of digits whose
/// value is at most `limit`.
fn parse_number(v: &Vec<char>, lo: usize, hi: usize, base: u64, limit: u64) -> (r: Option<u64>)
    requires
        lo <= hi <= v@.len(),
        base == 10 || base == 16,
        limit >= 16,
    ensures
        match number_of(v@.subrange(lo as int, hi as int), base as int, limit as int) {
            Some(n) => r is Some && r->Some_0 as int == n,
            None => r is None,
        },
        r is Some ==> r->Some_0 <= limit,
{
    let ghost s = v@.subrange(lo as int, hi as int);
    if lo == hi {
        return None;
    }
    let mut acc: u64 = 0;
    let mut i = lo;
    while i < hi
        invariant
            lo <= i <= hi <= v@.len(),
            s == v@.subrange(lo as int, hi as int),
            base == 10 || base == 16,
            limit >= 16,
            all_digits(s.take(i - lo), base as int),
            acc as int == digits_value(s.take(i - lo), base as int),
            acc <= limit,
        decreases hi - i,
    {
        let d = match digit_in(v[i], base) {
            Some(d) => d,
            None => {
                assert(s[i - lo] == v@[i as int]);
                return None;
            },
        };
        let ghost pre = s.take(i - lo);
        let ghost next = s.take(i - lo + 1);
        proof {
            assert(next.drop_last() =~= pre);
            assert(next.last() == v@[i as int]);
            assert(all_digits(next, base as int));
        }
        let q = (limit - d) / base;
        if acc > q {
            proof {
                assert(acc * base + d > limit) by (nonlinear_arith)
                    requires
                        acc > q,
                        q == (limit - d) as int / base as int,
                        base > 0,
                        d <= limit,
                ;
                if all_digits(s, base as int) {
                    lemma_digits_value_prefix(s, i - lo + 1, base as int);
                }
            }
            return None;
        }
        proof {
            assert(acc * base + d <= limit) by (nonlinear_arith)
                requires
                    acc <= q,
                    q == (limit - d) as int / base as int,
                    base > 0,
                    d <= limit,
            ;
        }
        acc = acc * base + d;
        i = i + 1;
    }
    assert(s.take(hi - lo) =~= s);
    Some(acc)
}

/// The immediate that `v[lo..hi]` spells.
fn parse_imm_at(v: &Vec<char>, lo: usize, hi: usize) -> (r: Option<i32>)
    requires
        lo <= hi <= v@.len(),
    ensures
        r == parse_imm(v@.subrange(lo as int, hi as int)),
{
    let ghost s = v@.subrange(lo as int, hi as int);
    if hi - lo >= 2 {
        assert(s[0] == v@[lo as int] && s[1] == v@[lo + 1]);
    }
    if hi - lo >= 2 && v[lo] == '0' && v[lo + 1] == 'x' {
        assert(s.subrange(2, s.len() as int) =~= v@.subrange(lo + 2, hi as int));
        match parse_number(v, lo + 2, hi, 16, 0x7fff_ffff) {
            Some(n) => {
                assert(n as i32 as int == n as int);
                Some(n as i32)
            },
            None => None,
        }
    } else {
        match parse_number(v, lo, hi, 10, 0x7fff_ffff) {
            Some(n) => {
                assert(n as i32 as int == n as int);
                Some(n as i32)
            },
            None => None,
        }
    }
}

/// The parameter index that `v[lo..hi]` spells.
fn parse_param_at(v: &Vec<char>, lo: usize, hi: usize) -> (r: Option<usize>)
    requires
        lo <= hi <= v@.len(),
    ensures
        r == parse_param(v@.subrange(lo as int, hi as int)),
{
    assert(usize::MAX as u64 as int == usize::MAX as int);
    match parse_number(v, lo, hi, 10, usize::MAX as u64) {
        Some(n) => if n >= 1 {
            assert((n - 1) as usize as int == n - 1);
            Some((n - 1) as usize)
        } else {
            None
        },
        None => None,
    }
}

/// Whether `v[lo..hi]` spells `w` in any case.
fn spells_at(v: &Vec<char>, lo: usize, hi: usize, w: &str) -> (r: bool)
    requires
        lo <= hi <= v@.len(),
    ensures
        r == spells(v@.subrange(lo as int, hi as int), w@),
{
    let wc = chars_of(w);
    if hi - lo != wc.len() {
        return false;
    }
    let mut i: usize = 0;
    while i < wc.len()
        invariant
            hi - lo == wc@.len(),
            lo <= hi <= v@.len(),
            wc@ == w@,
            forall|j: int| 0 <= j < i ==> eq_fold(v@[lo + j], wc@[j]),
        decreases wc@.len() - i,
    {
        let a = v[lo + i];
        let b = wc[i];
        if !(a == b || ('A' <= a && a <= 'Z' && a as u32 + 32 == b as u32)) {
            assert(v@.subrange(lo as int, hi as int)[i as int] == a);
            return false;
        }
        i = i + 1;
    }
    assert forall|j: int| 0 <= j < hi - lo implies eq_fold(
        #[trigger] v@.subrange(lo as int, hi as int)[j],
        w@[j],
    ) by {
        assert(v@.subrange(lo as int, hi as int)[j] == v@[lo + j]);
    }
    true
}


/// The register that `v[lo..hi]` names, in any case.
fn register_at(v: &Vec<char>, lo: usize, hi: usize) -> (r: Option<Register>)
    requires
        lo <= hi <= v@.len(),
    ensures
        r == reg_named(v@.subrange(lo as int, hi as int)),
{
    proof {
        reveal_strlit("r0");
        reveal_strlit("r1");
        reveal_strlit("r2");
        reveal_strlit("r3");
        reveal_strlit("sp");
        reveal_strlit("pc");
        reveal_strlit("bp");
        reveal_strlit("flags");
        assert("r0"@ =~= reg_name(Register::R0));
        assert("r1"@ =~= reg_name(Register::R1));
        assert("r2"@ =~= reg_name(Register::R2));
        assert("r3"@ =~= reg_name(Register::R3));
        assert("sp"@ =~= reg_name(Register::SP));
        assert("pc"@ =~= reg_name(Register::PC));
        assert("bp"@ =~= reg_name(Register::BP));
        assert("flags"@ =~= reg_name(Register::FLAGS));
    }
    if spells_at(v, lo, hi, "r0") {
        Some(Register::R0)
    } else if spells_at(v, lo, hi, "r1") {
        Some(Register::R1)
    } else if spells_at(v, lo, hi, "r2") {
        Some(Register::R2)
    } else if spells_at(v, lo, hi, "r3") {
        Some(Register::R3)
    } else if spells_at(v, lo, hi, "sp") {
        Some(Register::SP)
    } else if spells_at(v, lo, hi, "pc") {
        Some(Register::PC)
    } else if spells_at(v, lo, hi, "bp") {
        Some(Register::BP)
    } else if spells_at(v, lo, hi, "flags") {
        Some(Register::FLAGS)
    } else {
        None
    }
}

/// The operation that `v[lo..hi]` names, in any case.
fn op_at(v: &Vec<char>, lo: usize, hi: usize) -> (r: Option<Op>)
    requires
        lo <= hi <= v@.len(),
    ensures
        r == op_named(v@.subrange(lo as int, hi as int)),
{
    proof {
        reveal_strlit("nop");
        reveal_strlit("add");
        reveal_strlit("sub");
        reveal_strlit("mul");
        reveal_strlit("div");
        reveal_strlit("ldr");
        reveal_strlit("push");
        reveal_strlit("pop");
        assert("nop"@ =~= op_name(Op::Nop));
        assert("add"@ =~= op_name(Op::Add));
        assert("sub"@ =~= op_name(Op::Sub));
        assert("mul"@ =~= op_name(Op::Mul));
        assert("div"@ =~= op_name(Op::Div));
        assert("ldr"@ =~= op_name(Op::Ldr));
        assert("push"@ =~= op_name(Op::Push));
        assert("pop"@ =~= op_name(Op::Pop));
    }
    if spells_at(v, lo, hi, "nop") {
        Some(Op::Nop)
    } else if spells_at(v, lo, hi, "add") {
        Some(Op::Add)
    } else if spells_at(v, lo, hi, "sub") {
        Some(Op::Sub)
    } else if spells_at(v, lo, hi, "mul") {
        Some(Op::Mul)
    } else if spells_at(v, lo, hi, "div") {
        Some(Op::Div)
    } else if spells_at(v, lo, hi, "ldr") {
        Some(Op::Ldr)
    } else if spells_at(v, lo, hi, "push") {
        Some(Op::Push)
    } else if spells_at(v, lo, hi, "pop") {
        Some(Op::Pop)
    } else {
        None
    }
}


/// An `Error` token for the text from `start` to the first whitespace at or after `from`.
pub open spec fn error_token(src: Seq<char>, start: int, from: int, line: int, t: Slots) -> (
    TokensKind,
    int,
    int,
    Slots,
) {
    let e = span(src, from, CharClass::NotSpace);
    let (t2, id) = insert_spec(t, src.subrange(start, e), SymbolKind::Unknown, None, line as usize);
    (TokensKind::Error(SymbolId(id)), e, line, t2)
}

/// The next token from `pos` on, at line `line`: its kind, where reading stops, the line
/// there, and the symbol table after it. Blanks before the token are skipped; the end of
/// the text and a NUL character give `Eof`.
pub open spec fn scan(src: Seq<char>, pos: int, line: int, t: Slots) -> (TokensKind, int, int, Slots) {
    let first = span(src, pos, CharClass::Blank);
    if first >= src.len() {
        (TokensKind::Eof, first, line, t)
    } else {
        let c = src[first];
        if c == '\n' {
            (TokensKind::Newline, first + 1, line + 1, t)
        } else if c == '#' {
            let e = span(src, first + 1, CharClass::HexOrX);
            match parse_imm(src.subrange(first + 1, e)) {
                Some(v) => (TokensKind::Imm(v), e, line, t),
                None => error_token(src, first + 1, e, line, t),
            }
        } else if is_alpha(c) || c == '_' {
            let e = span(src, first + 1, CharClass::Ident);
            let w = src.subrange(first, e);
            match reg_named(w) {
                Some(r) => (TokensKind::Register(r), e, line, t),
                None => match op_named(w) {
                    Some(op) => (TokensKind::Mnemonic(op), e, line, t),
                    None => {
                        let (t2, id) = insert_spec(t, w, SymbolKind::Label, None, line as usize);
                        (TokensKind::Label(SymbolId(id)), e, line, t2)
                    },
                },
            }
        } else if c == '.' {
            let e = span(src, first + 1, CharClass::Alnum);
            let (t2, id) = insert_spec(
                t,
                src.subrange(first, e),
                SymbolKind::Directive,
                None,
                line as usize,
            );
            (TokensKind::Directive(SymbolId(id)), e, line, t2)
        } else if c == '%' {
            let e = span(src, first + 1, CharClass::Alnum);
            match parse_param(src.subrange(first + 1, e)) {
                Some(n) => (TokensKind::Param(n), e, line, t),
                None => error_token(src, first, e, line, t),
            }
        } else if c == ',' {
            (TokensKind::Comma, first + 1, line, t)
        } else if c == ';' {
            (TokensKind::Comment, span(src, first + 1, CharClass::NotNewline), line, t)
        } else if c == ':' {
            (TokensKind::Semi, first + 1, line, t)
        } else if c == '\0' {
            (TokensKind::Eof, first + 1, line, t)
        } else {
            error_token(src, first, first + 1, line, t)
        }
    }
}

/// The tokens from `pos` up to the first `Eof`, and the symbol table after them.
pub open spec fn lex_from(src: Seq<char>, pos: int, line: int, t: Slots) -> (Seq<Token>, Slots)
    decreases src.len() - pos,
{
    let (k, p, l, t2) = scan(src, pos, line, t);
    if k is Eof || p <= pos || p > src.len() {
        (Seq::empty(), t2)
    } else {
        let (rest, t3) = lex_from(src, p, l, t2);
        (seq![Token { kind: k, line: l as usize }] + rest, t3)
    }
}

/// Reads tokens from a source text, entering names into a symbol table.
pub struct Lexer {
    chars: Vec<char>,
    start: usize,
    pos: usize,
    line: usize,
}

impl Lexer {
    /// The source text.
    pub closed spec fn src(&self) -> Seq<char> {
        self.chars@
    }

    /// Where reading stands.
    pub closed spec fn at(&self) -> int {
        self.pos as int
    }

    /// The current line, counted from one.
    pub closed spec fn line_no(&self) -> int {
        self.line as int
    }

    pub closed spec fn wf(&self) -> bool {
        &&& self.start <= self.pos <= self.chars@.len()
        &&& 1 <= self.line <= self.pos + 1
        &&& self.chars@.len() < usize::MAX
    }

    /// A lexer at the start of `source`, on line one.
    pub fn new(source: &str) -> (l: Lexer)
        requires
            source@.len() < usize::MAX,
        ensures
            l.wf(),
            l.src() == source@,
            l.at() == 0,
            l.line_no() == 1,
    {
        Lexer { chars: chars_of(source), start: 0, pos: 0, line: 1 }
    }

    fn advance(&mut self) -> (c: char)
        requires
            old(self).wf(),
        ensures
            final(self).wf(),
            final(self).chars == old(self).chars,
            final(self).start == old(self).start,
            old(self).pos < old(self).chars@.len() ==> c == old(self).chars@[old(self).pos as int]
                && final(self).pos == old(self).pos + 1
                && final(self).line == old(self).line + if c == '\n' { 1int } else { 0int },
            old(self).pos >= old(self).chars@.len() ==> c == '\0' && final(self).pos
                == old(self).pos && final(self).line == old(self).line,
    {
        if self.pos < self.chars.len() {
            let c = self.chars[self.pos];
            self.pos = self.pos + 1;
            if c == '\n' {
                self.line = self.line + 1;
            }
            c
        } else {
            '\0'
        }
    }

    fn peek(&self) -> (c: char)
        ensures
            self.pos < self.chars@.len() ==> c == self.chars@[self.pos as int],
            self.pos >= self.chars@.len() ==> c == '\0',
    {
        if self.pos < self.chars.len() {
            self.chars[self.pos]
        } else {
            '\0'
        }
    }

    fn is_eof(&self) -> (r: bool)
        ensures
            r == (self.pos >= self.chars@.len()),
    {
        self.pos >= self.chars.len()
    }

    fn advance_while(&mut self, cls: CharClass)
        requires
            old(self).wf(),
            !class_has(cls, '\n'),
        ensures
            final(self).wf(),
            final(self).chars == old(self).chars,
            final(self).start == old(self).start,
            final(self).line == old(self).line,
            final(self).pos == span(old(self).chars@, old(self).pos as int, cls),
    {
        while !self.is_eof() && in_class(cls, self.peek())
            invariant
                self.wf(),
                self.chars == old(self).chars,
                self.start == old(self).start,
                self.line == old(self).line,
                !class_has(cls, '\n'),
                span(self.chars@, self.pos as int, cls) == span(
                    old(self).chars@,
                    old(self).pos as int,
                    cls,
                ),
            decreases self.chars@.len() - self.pos,
        {
            self.advance();
        }
    }

    fn content(&self) -> (r: String)
        requires
            self.wf(),
        ensures
            r@ == self.chars@.subrange(self.start as int, self.pos as int),
    {
        string_of(self.chars.as_slice(), self.start, self.pos)
    }

    fn make_error(&mut self, syms: &mut SymbolTable) -> (k: TokensKind)
        requires
            old(self).wf(),
            old(syms).wf(),
        ensures
            final(self).wf(),
            final(syms).wf(),
            final(self).chars == old(self).chars,
            final(self).start == old(self).start,
            final(self).line == old(self).line,
            ({
                let (k2, e, l, t2) = error_token(
                    old(self).chars@,
                    old(self).start as int,
                    old(self).pos as int,
                    old(self).line as int,
                    old(syms).slots(),
                );
                &&& k == k2
                &&& final(self).pos == e
                &&& final(syms).slots() == t2
            }),
    {
        self.advance_while(CharClass::NotSpace);
        let s = self.content();
        TokensKind::Error(syms.insert(s.as_str(), SymbolKind::Unknown, None, self.line))
    }

    /// Reads the next token; `Eof` at the end of the text or at a NUL character.
    pub fn next_token(&mut self, syms: &mut SymbolTable) -> (tok: Token)
        requires
            old(self).wf(),
            old(syms).wf(),
        ensures
            final(self).wf(),
            final(syms).wf(),
            final(self).src() == old(self).src(),
            ({
                let (k, p, l, t2) = scan(
                    old(self).src(),
                    old(self).at(),
                    old(self).line_no(),
                    old(syms).slots(),
                );
                &&& tok == Token { kind: k, line: l as usize }
                &&& final(self).at() == p
                &&& final(self).line_no() == l
                &&& final(syms).slots() == t2
            }),
    {
        let ghost src = self.chars@;
        self.advance_while(CharClass::Blank);
        proof {
            lemma_span_bounds(src, old(self).pos as int, CharClass::Blank);
        }
        self.start = self.pos;
        let c = self.advance();
        let kind = if c == '\n' {
            TokensKind::Newline
        } else if c == '#' {
            self.start = self.pos;
            self.advance_while(CharClass::HexOrX);
            match parse_imm_at(&self.chars, self.start, self.pos) {
                Some(v) => TokensKind::Imm(v),
                None => self.make_error(syms),
            }
        } else if ('a' <= c && c <= 'z') || ('A' <= c && c <= 'Z') || c == '_' {
            self.advance_while(CharClass::Ident);
            match register_at(&self.chars, self.start, self.pos) {
                Some(r) => TokensKind::Register(r),
                None => match op_at(&self.chars, self.start, self.pos) {
                    Some(op) => TokensKind::Mnemonic(op),
                    None => {
                        let s = self.content();
                        TokensKind::Label(
                            syms.insert(s.as_str(), SymbolKind::Label, None, self.line),
                        )
                    },
                },
            }
        } else if c == '.' {
            self.advance_while(CharClass::Alnum);
            let s = self.content();
            TokensKind::Directive(syms.insert(s.as_str(), SymbolKind::Directive, None, self.line))
        } else if c == '%' {
            proof {
                lemma_span_bounds(src, self.pos as int, CharClass::Alnum);
            }
            self.advance_while(CharClass::Alnum);
            match parse_param_at(&self.chars, self.start + 1, self.pos) {
                Some(n) => TokensKind::Param(n),
                None => self.make_error(syms),
            }
        } else if c == ',' {
            TokensKind::Comma
        } else if c == ';' {
            self.advance_while(CharClass::NotNewline);
            TokensKind::Comment
        } else if c == ':' {
            TokensKind::Semi
        } else if c == '\0' {
            TokensKind::Eof
        } else {
            self.make_error(syms)
        };
        Token { kind, line: self.line }
    }
}


/// The tokens of `source` up to the first `Eof`, each with its line; names that are not
/// registers or mnemonics go into `syms`.
pub fn tokenize(source: &str, syms: &mut SymbolTable) -> (tokens: Vec<Token>)
    requires
        source@.len() < usize::MAX,
        old(syms).wf(),
    ensures
        final(syms).wf(),
        (tokens@, final(syms).slots()) == lex_from(source@, 0, 1, old(syms).slots()),
{
    let mut lexer = Lexer::new(source);
    let mut tokens: Vec<Token> = Vec::new();
    loop
        invariant
            lexer.wf(),
            syms.wf(),
            lexer.src() == source@,
            ({
                let (rest, t) = lex_from(source@, lexer.at(), lexer.line_no(), syms.slots());
                (tokens@ + rest, t) == lex_from(source@, 0, 1, old(syms).slots())
            }),
        decreases source@.len() - lexer.at(),
    {
        let ghost pre_at = lexer.at();
        let ghost pre_line = lexer.line_no();
        let ghost pre_slots = syms.slots();
        let tok = lexer.next_token(syms);
        proof {
            lemma_scan_advances(source@, pre_at, pre_line, pre_slots);
        }
        if let TokensKind::Eof = tok.kind {
            proof {
                assert(tokens@ + Seq::<Token>::empty() =~= tokens@);
            }
            return tokens;
        }
        let ghost before = tokens@;
        tokens.push(tok);
        proof {
            let (rest, t) = lex_from(source@, lexer.at(), lexer.line_no(), syms.slots());
            assert(before + (seq![tok] + rest) =~= tokens@ + rest);
        }
    }
}

/// Reading a token that is not `Eof` moves forward and stays within the text.
pub proof fn lemma_scan_advances(src: Seq<char>, pos: int, line: int, t: Slots)
    requires
        0 <= pos <= src.len(),
    ensures
        ({
            let (k, p, l, t2) = scan(src, pos, line, t);
            &&& pos <= p <= src.len()
            &&& !(k is Eof) ==> pos < p
        }),
{
    let first = span(src, pos, CharClass::Blank);
    lemma_span_bounds(src, pos, CharClass::Blank);
    if first < src.len() {
        lemma_span_bounds(src, first + 1, CharClass::HexOrX);
        lemma_span_bounds(src, first + 1, CharClass::Ident);
        lemma_span_bounds(src, first + 1, CharClass::Alnum);
        lemma_span_bounds(src, first + 1, CharClass::NotNewline);
        lemma_span_bounds(src, first + 1, CharClass::NotSpace);
        let e1 = span(src, first + 1, CharClass::HexOrX);
        let e2 = span(src, first + 1, CharClass::Alnum);
        lemma_span_bounds(src, e1, CharClass::NotSpace);
        lemma_span_bounds(src, e2, CharClass::NotSpace);
    }
}

} // verus!
