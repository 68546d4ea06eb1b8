//! Source text to instructions: lexing, then two passes over the tokens.

pub mod directives;
pub mod lexer;
pub mod symbols;

use vstd::prelude::*;

use crate::memory::le32_bytes;
use crate::opcode::{encode_spec, Instruction, Op, Operand};
use crate::register::Register;
use directives::{directive_named, entry_name, Directives};
use lexer::{Token, TokensKind};
use lexer::{lex_from, sym_of, tokenize};
use symbols::{id_of, lemma_id_of_slot, names_unique, with_value, Slots, Symbol, SymbolId, SymbolTable, SymbolView};

verus! {

/// What a directive recorded.
#[derive(Debug)]
pub enum DirectiveBody {
    /// A macro: its name token, its parameter tokens and its body.
    Macro { name: Token, parameters: Vec<Token>, body: Vec<Token> },
    /// Any other directive: the tokens after it, up to and with the end of its line.
    Generic { body: Vec<Token> },
}

/// A directive record as a mathematical value.
pub enum BodyView {
    Macro { name: Token, parameters: Seq<Token>, body: Seq<Token> },
    Generic { body: Seq<Token> },
}

impl View for DirectiveBody {
    type V = BodyView;

    open spec fn view(&self) -> BodyView {
        match self {
            DirectiveBody::Macro { name, parameters, body } => BodyView::Macro {
                name: *name,
                parameters: parameters@,
                body: body@,
            },
            DirectiveBody::Generic { body } => BodyView::Generic { body: body@ },
        }
    }
}

/// One directive record, under the symbol of the directive that made it.
#[derive(Debug)]
pub struct Macros {
    pub name: SymbolId,
    pub body: DirectiveBody,
}

pub struct MacroView {
    pub name: SymbolId,
    pub body: BodyView,
}

impl View for Macros {
    type V = MacroView;

    open spec fn view(&self) -> MacroView {
        MacroView { name: self.name, body: self.body@ }
    }
}

/// The records, in the order they were made.
pub open spec fn records(d: Seq<Macros>) -> Seq<MacroView> {
    d.map_values(|m: Macros| m@)
}

/// The directive that symbol `id` spells, if it has a symbol.
pub open spec fn symbol_directive(t: Slots, id: SymbolId) -> Option<Directives> {
    if id.0 < t.len() && t[id.0 as int] is Some {
        directive_named(t[id.0 as int]->Some_0.name)
    } else {
        None
    }
}

/// The table with the value of symbol `id` set to `v`; unchanged when there is no such
/// symbol.
pub open spec fn set_value(t: Slots, id: SymbolId, v: u32) -> Slots {
    if id.0 < t.len() && t[id.0 as int] is Some {
        t.update(id.0 as int, Some(with_value(t[id.0 as int]->Some_0, v)))
    } else {
        t
    }
}

/// The first `Newline` at or after `j`, or the end.
pub open spec fn find_newline(toks: Seq<Token>, j: int) -> int
    decreases toks.len() - j,
{
    if j < 0 || j >= toks.len() || toks[j].kind is Newline {
        j
    } else {
        find_newline(toks, j + 1)
    }
}

/// The token is the directive `.endmacro`.
pub open spec fn is_endmacro(tok: Token, t: Slots) -> bool {
    match tok.kind {
        TokensKind::Directive(id) => symbol_directive(t, id) == Some(Directives::MacroEnd),
        _ => false,
    }
}

/// The first `.endmacro` at or after `j`, or the end.
pub open spec fn find_endmacro(toks: Seq<Token>, j: int, t: Slots) -> int
    decreases toks.len() - j,
{
    if j < 0 || j >= toks.len() || is_endmacro(toks[j], t) {
        j
    } else {
        find_endmacro(toks, j + 1, t)
    }
}

/// The first token at or after `j` that is not a `Newline`, or the end.
pub open spec fn skip_newlines(toks: Seq<Token>, j: int) -> int
    decreases toks.len() - j,
{
    if j < 0 || j >= toks.len() || !(toks[j].kind is Newline) {
        j
    } else {
        skip_newlines(toks, j + 1)
    }
}

pub proof fn lemma_find_bounds(toks: Seq<Token>, j: int, t: Slots)
    requires
        0 <= j <= toks.len(),
    ensures
        j <= find_newline(toks, j) <= toks.len(),
        j <= find_endmacro(toks, j, t) <= toks.len(),
        j <= skip_newlines(toks, j) <= toks.len(),
        forall|k: int| j <= k < find_newline(toks, j) ==> !(#[trigger] toks[k].kind is Newline),
        forall|k: int| j <= k < find_endmacro(toks, j, t) ==> !is_endmacro(#[trigger] toks[k], t),
        forall|k: int| j <= k < skip_newlines(toks, j) ==> (#[trigger] toks[k].kind is Newline),
        find_newline(toks, j) < toks.len() ==> toks[find_newline(toks, j)].kind is Newline,
        find_endmacro(toks, j, t) < toks.len() ==> is_endmacro(toks[find_endmacro(toks, j, t)], t),
        skip_newlines(toks, j) < toks.len() ==> !(toks[skip_newlines(toks, j)].kind is Newline),
    decreases toks.len() - j,
{
    if j < toks.len() {
        lemma_find_bounds(toks, j + 1, t);
    }
}

/// Past index `n`, or at it when it is the end.
pub open spec fn past(toks: Seq<Token>, n: int) -> int {
    if n < toks.len() {
        n + 1
    } else {
        n
    }
}

/// What one token does in the first pass.
pub struct FirstStep {
    /// Tokens it keeps for the second pass.
    pub out: Seq<Token>,
    /// Tokens it reports as errors.
    pub errs: Seq<Token>,
    /// The address counter after it.
    pub index: u32,
    pub slots: Slots,
    pub dirs: Seq<MacroView>,
    /// Where the next token to look at stands.
    pub next: int,
}

/// The first pass's treatment of the token at `i`, with address counter `index`:
/// a mnemonic or an error token moves the counter by four; a label takes the counter as
/// its value; a directive is recorded with the tokens it owns and dropped; an unknown
/// directive or a stray `.endmacro` is an error; anything else passes through.
pub open spec fn first_step(toks: Seq<Token>, i: int, index: u32, t: Slots, dirs: Seq<MacroView>) -> FirstStep {
    let cur = toks[i];
    let keep = FirstStep {
        out: seq![cur],
        errs: Seq::empty(),
        index,
        slots: t,
        dirs,
        next: i + 1,
    };
    let fail = FirstStep {
        out: Seq::empty(),
        errs: seq![cur],
        index,
        slots: t,
        dirs,
        next: i + 1,
    };
    match cur.kind {
        TokensKind::Mnemonic(_) => FirstStep {
            index: vstd::wrapping::u32_specs::wrapping_add(index, 4),
            ..keep
        },
        TokensKind::Label(id) => FirstStep { slots: set_value(t, id, index), ..keep },
        TokensKind::Error(_) => FirstStep {
            index: vstd::wrapping::u32_specs::wrapping_add(index, 4),
            ..fail
        },
        TokensKind::Directive(e) => match symbol_directive(t, e) {
            Some(Directives::Entry) | Some(Directives::Section) => {
                let n = find_newline(toks, i + 1);
                let end = past(toks, n);
                FirstStep {
                    out: Seq::empty(),
                    errs: Seq::empty(),
                    index,
                    slots: t,
                    dirs: dirs.push(
                        MacroView { name: e, body: BodyView::Generic { body: toks.subrange(i + 1, end) } },
                    ),
                    next: end,
                }
            },
            Some(Directives::MacroStart) => if i + 1 >= toks.len() {
                fail
            } else {
                let n = find_newline(toks, i + 2);
                let j = past(toks, n);
                let m = find_endmacro(toks, j, t);
                FirstStep {
                    out: Seq::empty(),
                    errs: Seq::empty(),
                    index,
                    slots: t,
                    dirs: dirs.push(
                        MacroView {
                            name: e,
                            body: BodyView::Macro {
                                name: toks[i + 1],
                                parameters: toks.subrange(i + 2, n),
                                body: toks.subrange(j, m),
                            },
                        },
                    ),
                    next: skip_newlines(toks, past(toks, m)),
                }
            },
            _ => fail,
        },
        _ => keep,
    }
}

/// The first pass from token `i` on: kept tokens, error tokens, the table and the records.
pub open spec fn first_from(toks: Seq<Token>, i: int, index: u32, t: Slots, dirs: Seq<MacroView>) -> (
    Seq<Token>,
    Seq<Token>,
    Slots,
    Seq<MacroView>,
)
    decreases toks.len() - i,
{
    if i < 0 || i >= toks.len() {
        (Seq::empty(), Seq::empty(), t, dirs)
    } else {
        let st = first_step(toks, i, index, t, dirs);
        if st.next <= i || st.next > toks.len() {
            (Seq::empty(), Seq::empty(), t, dirs)
        } else {
            let (out, errs, t2, dirs2) = first_from(toks, st.next, st.index, st.slots, st.dirs);
            (st.out + out, st.errs + errs, t2, dirs2)
        }
    }
}

/// The result of the first pass: the kept tokens, or every error token when there is one.
pub open spec fn first_result(toks: Seq<Token>, t: Slots, dirs: Seq<MacroView>) -> Result<Seq<Token>, Seq<Token>> {
    let (out, errs, _, _) = first_from(toks, 0, 0, t, dirs);
    if errs.len() == 0 {
        Ok(out)
    } else {
        Err(errs)
    }
}


/// Sets the value of symbol `id` to `v`.
fn set_symbol_value(table: &mut SymbolTable, id: SymbolId, v: u32)
    requires
        old(table).wf(),
    ensures
        final(table).wf(),
        final(table).slots() == set_value(old(table).slots(), id, v),
{
    let f = |s: Symbol| -> (r: Symbol)
        ensures
            r@ == with_value(s@, v),
        { s.with_value(v) };
    table.update(id, f);
}

/// The directive that symbol `id` spells.
fn directive_of(table: &SymbolTable, id: SymbolId) -> (r: Option<Directives>)
    ensures
        r == symbol_directive(table.slots(), id),
{
    match table.get_symbol(&id) {
        Some(s) => Directives::from_name(&s.name),
        None => None,
    }
}

fn find_newline_at(toks: &Vec<Token>, j: usize) -> (r: usize)
    requires
        j <= toks@.len(),
    ensures
        r == find_newline(toks@, j as int),
{
    let mut k = j;
    while k < toks.len() && !matches!(toks[k].kind, TokensKind::Newline)
        invariant
            j <= k <= toks@.len(),
            find_newline(toks@, k as int) == find_newline(toks@, j as int),
        decreases toks@.len() - k,
    {
        k = k + 1;
    }
    k
}

fn find_endmacro_at(toks: &Vec<Token>, j: usize, table: &SymbolTable) -> (r: usize)
    requires
        j <= toks@.len(),
    ensures
        r == find_endmacro(toks@, j as int, table.slots()),
{
    let mut k = j;
    while k < toks.len()
        invariant
            j <= k <= toks@.len(),
            find_endmacro(toks@, k as int, table.slots()) == find_endmacro(
                toks@,
                j as int,
                table.slots(),
            ),
        decreases toks@.len() - k,
    {
        if let TokensKind::Directive(id) = toks[k].kind {
            if let Some(Directives::MacroEnd) = directive_of(table, id) {
                return k;
            }
        }
        k = k + 1;
    }
    k
}

fn skip_newlines_at(toks: &Vec<Token>, j: usize) -> (r: usize)
    requires
        j <= toks@.len(),
    ensures
        r == skip_newlines(toks@, j as int),
{
    let mut k = j;
    while k < toks.len() && matches!(toks[k].kind, TokensKind::Newline)
        invariant
            j <= k <= toks@.len(),
            skip_newlines(toks@, k as int) == skip_newlines(toks@, j as int),
        decreases toks@.len() - k,
    {
        k = k + 1;
    }
    k
}

fn past_at(toks: &Vec<Token>, n: usize) -> (r: usize)
    requires
        n <= toks@.len(),
    ensures
        r == past(toks@, n as int),
{
    if n < toks.len() {
        n + 1
    } else {
        n
    }
}

/// The tokens `toks[lo..hi]`.
fn slice_of(toks: &Vec<Token>, lo: usize, hi: usize) -> (r: Vec<Token>)
    requires
        lo <= hi <= toks@.len(),
    ensures
        r@ == toks@.subrange(lo as int, hi as int),
{
    let mut r: Vec<Token> = Vec::new();
    let mut k = lo;
    while k < hi
        invariant
            lo <= k <= hi <= toks@.len(),
            r@ == toks@.subrange(lo as int, k as int),
        decreases hi - k,
    {
        r.push(toks[k]);
        assert(r@ =~= toks@.subrange(lo as int, k + 1));
        k = k + 1;
    }
    r
}

/// Resolves label addresses and collects directives. Each mnemonic, and each error token,
/// takes four bytes; a label gets the address reached so far as its value. Directives are
/// appended to `directives` with the tokens they own, and left out of the result. When any
/// error token, unknown directive or stray `.endmacro` is met, the result is all of them.
pub fn first_pass(
    tokens: &Vec<Token>,
    symbol_table: &mut SymbolTable,
    directives: &mut Vec<Macros>,
) -> (r: Result<Vec<Token>, Vec<Token>>)
    requires
        old(symbol_table).wf(),
    ensures
        final(symbol_table).wf(),
        ({
            let (out, errs, t, d) = first_from(
                tokens@,
                0,
                0,
                old(symbol_table).slots(),
                records(old(directives)@),
            );
            &&& final(symbol_table).slots() == t
            &&& records(final(directives)@) == d
            &&& errs.len() == 0 ==> r is Ok && r->Ok_0@ == out
            &&& errs.len() > 0 ==> r is Err && r->Err_0@ == errs
        }),
{
    let ghost toks = tokens@;
    let mut out: Vec<Token> = Vec::new();
    let mut errors: Vec<Token> = Vec::new();
    let mut index: u32 = 0;
    let mut i: usize = 0;
    while i < tokens.len()
        invariant
            toks == tokens@,
            i <= toks.len(),
            symbol_table.wf(),
            ({
                let total = first_from(toks, 0, 0, old(symbol_table).slots(), records(old(directives)@));
                let rest = first_from(toks, i as int, index, symbol_table.slots(), records(directives@));
                &&& total.0 == out@ + rest.0
                &&& total.1 == errors@ + rest.1
                &&& total.2 == rest.2
                &&& total.3 == rest.3
            }),
        decreases toks.len() - i,
    {
        let cur = tokens[i];
        let ghost st = first_step(toks, i as int, index, symbol_table.slots(), records(directives@));
        let ghost pre_out = out@;
        let ghost pre_errs = errors@;
        let ghost pre_dirs = records(directives@);
        let mut next = i + 1;
        match cur.kind {
            TokensKind::Mnemonic(_) => {
                index = index.wrapping_add(4);
                out.push(cur);
            },
            TokensKind::Label(id) => {
                set_symbol_value(symbol_table, id, index);
                out.push(cur);
            },
            TokensKind::Error(_) => {
                index = index.wrapping_add(4);
                errors.push(cur);
            },
            TokensKind::Directive(e) => {
                match directive_of(symbol_table, e) {
                    Some(Directives::Entry) | Some(Directives::Section) => {
                        let n = find_newline_at(tokens, i + 1);
                        proof {
                            lemma_find_bounds(toks, i + 1, symbol_table.slots());
                        }
                        let end = past_at(tokens, n);
                        let body = slice_of(tokens, i + 1, end);
                        directives.push(Macros { name: e, body: DirectiveBody::Generic { body } });
                        next = end;
                    },
                    Some(Directives::MacroStart) => {
                        if i + 1 >= tokens.len() {
                            errors.push(cur);
                        } else {
                            let name = tokens[i + 1];
                            let n = find_newline_at(tokens, i + 2);
                            proof {
                                lemma_find_bounds(toks, i + 2, symbol_table.slots());
                            }
                            let j = past_at(tokens, n);
                            let m = find_endmacro_at(tokens, j, symbol_table);
                            proof {
                                lemma_find_bounds(toks, j as int, symbol_table.slots());
                            }
                            let k = past_at(tokens, m);
                            proof {
                                lemma_find_bounds(toks, k as int, symbol_table.slots());
                            }
                            let parameters = slice_of(tokens, i + 2, n);
                            let body = slice_of(tokens, j, m);
                            directives.push(
                                Macros {
                                    name: e,
                                    body: DirectiveBody::Macro { name, parameters, body },
                                },
                            );
                            next = skip_newlines_at(tokens, k);
                        }
                    },
                    _ => {
                        errors.push(cur);
                    },
                }
            },
            _ => {
                out.push(cur);
            },
        }
        proof {
            assert(records(directives@) =~= st.dirs);
            assert(out@ =~= pre_out + st.out);
            assert(errors@ =~= pre_errs + st.errs);
            let rest = first_from(toks, next as int, index, symbol_table.slots(), records(directives@));
            assert(pre_out + (st.out + rest.0) =~= out@ + rest.0);
            assert(pre_errs + (st.errs + rest.1) =~= errors@ + rest.1);
        }
        i = next;
    }
    proof {
        assert(out@ + Seq::<Token>::empty() =~= out@);
        assert(errors@ + Seq::<Token>::empty() =~= errors@);
    }
    if errors.len() == 0 {
        Ok(out)
    } else {
        Err(errors)
    }
}


/// Why the second pass stopped.
#[derive(Debug, Clone, Copy, PartialEq, Eq, Structural)]
pub enum PassError {
    /// The tokens ran out inside an instruction.
    UnexpectedEnd,
    /// A register was needed here.
    ExpectedRegister(Token),
    /// A comma was needed here.
    ExpectedComma(Token),
    /// A register or an immediate was needed here.
    ExpectedOperand(Token),
    /// This token cannot stand where an instruction is expected.
    UnexpectedToken(Token),
    /// No macro has this name.
    UnknownMacro(Token),
    /// This macro is already being expanded.
    RecursiveMacro(Token),
    /// A parameter reference with no argument for it.
    MissingArgument(Token),
}

/// The register at `j`.
pub open spec fn reg_tok(toks: Seq<Token>, j: int) -> Result<Register, PassError> {
    if j >= toks.len() {
        Err(PassError::UnexpectedEnd)
    } else {
        match toks[j].kind {
            TokensKind::Register(r) => Ok(r),
            _ => Err(PassError::ExpectedRegister(toks[j])),
        }
    }
}

/// The comma at `j`.
pub open spec fn comma_tok(toks: Seq<Token>, j: int) -> Result<(), PassError> {
    if j >= toks.len() {
        Err(PassError::UnexpectedEnd)
    } else {
        match toks[j].kind {
            TokensKind::Comma => Ok(()),
            _ => Err(PassError::ExpectedComma(toks[j])),
        }
    }
}

/// The register or immediate at `j`; an immediate keeps its bits as an unsigned word.
pub open spec fn operand_tok(toks: Seq<Token>, j: int) -> Result<Operand, PassError> {
    if j >= toks.len() {
        Err(PassError::UnexpectedEnd)
    } else {
        match toks[j].kind {
            TokensKind::Register(r) => Ok(Operand::Reg(r)),
            TokensKind::Imm(i) => Ok(Operand::Imm(i as u32)),
            _ => Err(PassError::ExpectedOperand(toks[j])),
        }
    }
}

/// The arithmetic instruction of `op`.
pub open spec fn arith(op: Op, rd: Register, rs: Register, o: Operand) -> Instruction {
    match op {
        Op::Add => Instruction::Add(rd, rs, o),
        Op::Sub => Instruction::Sub(rd, rs, o),
        Op::Mul => Instruction::Mul(rd, rs, o),
        _ => Instruction::Div(rd, rs, o),
    }
}

/// The instruction of mnemonic `op` whose operands start at `j`, and where its operands
/// end: none for `Nop`; `Reg, Reg, Reg|Imm` for arithmetic; `Reg, Reg|Imm` for `Ldr`;
/// `Reg|Imm` for `Push` and `Pop`.
pub open spec fn instruction_tok(toks: Seq<Token>, j: int, op: Op) -> Result<(Instruction, int), PassError> {
    match op {
        Op::Nop => Ok((Instruction::Nop, j)),
        Op::Add | Op::Sub | Op::Mul | Op::Div => match reg_tok(toks, j) {
            Err(e) => Err(e),
            Ok(rd) => match comma_tok(toks, j + 1) {
                Err(e) => Err(e),
                Ok(_) => match reg_tok(toks, j + 2) {
                    Err(e) => Err(e),
                    Ok(rs) => match comma_tok(toks, j + 3) {
                        Err(e) => Err(e),
                        Ok(_) => match operand_tok(toks, j + 4) {
                            Err(e) => Err(e),
                            Ok(o) => Ok((arith(op, rd, rs, o), j + 5)),
                        },
                    },
                },
            },
        },
        Op::Ldr => match reg_tok(toks, j) {
            Err(e) => Err(e),
            Ok(rd) => match comma_tok(toks, j + 1) {
                Err(e) => Err(e),
                Ok(_) => match operand_tok(toks, j + 2) {
                    Err(e) => Err(e),
                    Ok(o) => Ok((Instruction::Ldr(rd, o), j + 3)),
                },
            },
        },
        Op::Push => match operand_tok(toks, j) {
            Err(e) => Err(e),
            Ok(o) => Ok((Instruction::Push(o), j + 1)),
        },
        Op::Pop => match operand_tok(toks, j) {
            Err(e) => Err(e),
            Ok(o) => Ok((Instruction::Pop(o), j + 1)),
        },
    }
}

/// The first macro record at or after `k` whose name token carries symbol `id`.
pub open spec fn find_macro_from(dirs: Seq<MacroView>, id: SymbolId, k: int) -> Option<usize>
    decreases dirs.len() - k,
{
    if k < 0 || k >= dirs.len() {
        None
    } else if dirs[k].body is Macro && sym_of(dirs[k].body->Macro_name.kind) == Ok::<
        SymbolId,
        lexer::TokenError,
    >(id) {
        Some(k as usize)
    } else {
        find_macro_from(dirs, id, k + 1)
    }
}

/// The first record made by the directive with symbol `id`.
pub open spec fn first_record(dirs: Seq<MacroView>, id: SymbolId, k: int) -> Option<int>
    decreases dirs.len() - k,
{
    if k < 0 || k >= dirs.len() {
        None
    } else if dirs[k].name == id {
        Some(k)
    } else {
        first_record(dirs, id, k + 1)
    }
}

/// The value of label `l` as a signed word; zero when it has none.
pub open spec fn label_value(t: Slots, l: SymbolId) -> i32 {
    if l.0 < t.len() && t[l.0 as int] is Some {
        match t[l.0 as int]->Some_0.value {
            Some(v) => v as i32,
            None => 0,
        }
    } else {
        0
    }
}

/// The entry offset: the value of the label that the first `.entry` record starts with;
/// zero without such a record or label.
pub open spec fn entry_of(dirs: Seq<MacroView>, t: Slots) -> i32 {
    match id_of(t, entry_name()) {
        None => 0,
        Some(eid) => match first_record(dirs, SymbolId(eid), 0) {
            None => 0,
            Some(k) => match dirs[k].body {
                BodyView::Generic { body } => if body.len() > 0 {
                    match body[0].kind {
                        TokensKind::Label(l) => label_value(t, l),
                        _ => 0,
                    }
                } else {
                    0
                },
                _ => 0,
            },
        },
    }
}

/// Where the address cursor starts: minus the entry offset, as a word.
pub open spec fn start_cursor(entry: i32) -> u32 {
    vstd::wrapping::u32_specs::wrapping_sub(0, entry as u32)
}

/// A macro body with each parameter reference replaced by its argument.
pub open spec fn substitute(body: Seq<Token>, args: Seq<Token>) -> Result<Seq<Token>, PassError>
    decreases body.len(),
{
    if body.len() == 0 {
        Ok(Seq::empty())
    } else {
        let tok = body[0];
        let r = match tok.kind {
            TokensKind::Param(p) => if p < args.len() {
                Ok(args[p as int])
            } else {
                Err(PassError::MissingArgument(tok))
            },
            _ => Ok(tok),
        };
        match r {
            Err(e) => Err(e),
            Ok(x) => match substitute(body.drop_first(), args) {
                Err(e) => Err(e),
                Ok(rest) => Ok(seq![x] + rest),
            },
        }
    }
}

/// `r` with `prefix` in front of its instructions.
pub open spec fn prepend(prefix: Seq<Instruction>, r: (Result<Seq<Instruction>, PassError>, Slots)) -> (
    Result<Seq<Instruction>, PassError>,
    Slots,
) {
    match r.0 {
        Ok(s) => (Ok(prefix + s), r.1),
        Err(e) => (Err(e), r.1),
    }
}

/// The second pass from token `i` on, with the address cursor at `cursor` and the macros
/// `active` being expanded: the instructions emitted, and the symbol table after.
pub open spec fn pass_from(
    toks: Seq<Token>,
    i: int,
    cursor: u32,
    dirs: Seq<MacroView>,
    t: Slots,
    active: Seq<usize>,
) -> (Result<Seq<Instruction>, PassError>, Slots)
    decreases dirs.len() - active.len(), toks.len() - i,
{
    if i < 0 || i >= toks.len() {
        (Ok(Seq::empty()), t)
    } else {
        let cur = toks[i];
        match cur.kind {
            TokensKind::Mnemonic(op) => match instruction_tok(toks, i + 1, op) {
                Err(e) => (Err(e), t),
                Ok((ins, next)) => if next <= i || next > toks.len() {
                    (Ok(Seq::empty()), t)
                } else {
                    prepend(
                        seq![ins],
                        pass_from(
                            toks,
                            next,
                            vstd::wrapping::u32_specs::wrapping_add(cursor, 4),
                            dirs,
                            t,
                            active,
                        ),
                    )
                },
            },
            TokensKind::Label(id) => if i + 1 < toks.len() && toks[i + 1].kind is Semi {
                pass_from(toks, i + 2, cursor, dirs, set_value(t, id, cursor), active)
            } else {
                match find_macro_from(dirs, id, 0) {
                    None => (Err(PassError::UnknownMacro(cur)), t),
                    Some(k) => if active.contains(k) || active.len() >= dirs.len()
                        || !(dirs[k as int].body is Macro) {
                        (Err(PassError::RecursiveMacro(cur)), t)
                    } else {
                        let params = dirs[k as int].body->Macro_parameters;
                        let body = dirs[k as int].body->Macro_body;
                        let argn = if params.len() <= toks.len() - (i + 1) {
                            params.len() as int
                        } else {
                            toks.len() - (i + 1)
                        };
                        match substitute(body, toks.subrange(i + 1, i + 1 + argn)) {
                            Err(e) => (Err(e), t),
                            Ok(sub) => {
                                let (inner, t2) = pass_from(
                                    sub,
                                    0,
                                    start_cursor(entry_of(dirs, t)),
                                    dirs,
                                    t,
                                    active.push(k),
                                );
                                match inner {
                                    Err(e) => (Err(e), t2),
                                    Ok(ins) => prepend(
                                        ins,
                                        pass_from(toks, i + 1 + argn, cursor, dirs, t2, active),
                                    ),
                                }
                            },
                        }
                    },
                }
            },
            TokensKind::Newline | TokensKind::Comment | TokensKind::Semi => pass_from(
                toks,
                i + 1,
                cursor,
                dirs,
                t,
                active,
            ),
            _ => (Err(PassError::UnexpectedToken(cur)), t),
        }
    }
}

/// The second pass over `toks`: the entry offset and the instructions, and the table after.
pub open spec fn second_spec(toks: Seq<Token>, dirs: Seq<MacroView>, t: Slots, active: Seq<usize>) -> (
    Result<(i32, Seq<Instruction>), PassError>,
    Slots,
) {
    let entry = entry_of(dirs, t);
    let (r, t2) = pass_from(toks, 0, start_cursor(entry), dirs, t, active);
    match r {
        Ok(ins) => (Ok((entry, ins)), t2),
        Err(e) => (Err(e), t2),
    }
}


fn reg_tok_at(toks: &Vec<Token>, j: usize) -> (r: Result<Register, PassError>)
    ensures
        r == reg_tok(toks@, j as int),
        r is Ok ==> j < toks.len(),
{
    if j >= toks.len() {
        return Err(PassError::UnexpectedEnd);
    }
    match toks[j].kind.get_reg() {
        Ok(r) => Ok(r),
        Err(_) => Err(PassError::ExpectedRegister(toks[j])),
    }
}

fn comma_tok_at(toks: &Vec<Token>, j: usize) -> (r: Result<(), PassError>)
    ensures
        r == comma_tok(toks@, j as int),
        r is Ok ==> j < toks.len(),
{
    if j >= toks.len() {
        return Err(PassError::UnexpectedEnd);
    }
    match toks[j].kind {
        TokensKind::Comma => Ok(()),
        _ => Err(PassError::ExpectedComma(toks[j])),
    }
}

fn operand_tok_at(toks: &Vec<Token>, j: usize) -> (r: Result<Operand, PassError>)
    ensures
        r == operand_tok(toks@, j as int),
        r is Ok ==> j < toks.len(),
{
    if j >= toks.len() {
        return Err(PassError::UnexpectedEnd);
    }
    let tok = toks[j];
    match tok.kind.get_reg() {
        Ok(r) => Ok(Operand::Reg(r)),
        Err(_) => match tok.kind.get_imm() {
            Ok(i) => Ok(Operand::Imm(i as u32)),
            Err(_) => Err(PassError::ExpectedOperand(tok)),
        },
    }
}

/// Reads the operands of mnemonic `op` from `j` on.
fn instruction_at(toks: &Vec<Token>, j: usize, op: Op) -> (r: Result<(Instruction, usize), PassError>)
    requires
        j <= toks@.len(),
    ensures
        match instruction_tok(toks@, j as int, op) {
            Ok((ins, next)) => r == Ok::<(Instruction, usize), PassError>((ins, next as usize)) && j
                <= next <= toks@.len(),
            Err(e) => r == Err::<(Instruction, usize), PassError>(e),
        },
{
    match op {
        Op::Nop => Ok((Instruction::Nop, j)),
        Op::Add | Op::Sub | Op::Mul | Op::Div => {
            let rd = match reg_tok_at(toks, j) {
                Ok(r) => r,
                Err(e) => return Err(e),
            };
            match comma_tok_at(toks, j + 1) {
                Ok(()) => {},
                Err(e) => return Err(e),
            }
            let rs = match reg_tok_at(toks, j + 2) {
                Ok(r) => r,
                Err(e) => return Err(e),
            };
            match comma_tok_at(toks, j + 3) {
                Ok(()) => {},
                Err(e) => return Err(e),
            }
            let o = match operand_tok_at(toks, j + 4) {
                Ok(o) => o,
                Err(e) => return Err(e),
            };
            let ins = match op {
                Op::Add => Instruction::Add(rd, rs, o),
                Op::Sub => Instruction::Sub(rd, rs, o),
                Op::Mul => Instruction::Mul(rd, rs, o),
                _ => Instruction::Div(rd, rs, o),
            };
            Ok((ins, j + 5))
        },
        Op::Ldr => {
            let rd = match reg_tok_at(toks, j) {
                Ok(r) => r,
                Err(e) => return Err(e),
            };
            match comma_tok_at(toks, j + 1) {
                Ok(()) => {},
                Err(e) => return Err(e),
            }
            let o = match operand_tok_at(toks, j + 2) {
                Ok(o) => o,
                Err(e) => return Err(e),
            };
            Ok((Instruction::Ldr(rd, o), j + 3))
        },
        Op::Push => match operand_tok_at(toks, j) {
            Ok(o) => Ok((Instruction::Push(o), j + 1)),
            Err(e) => Err(e),
        },
        Op::Pop => match operand_tok_at(toks, j) {
            Ok(o) => Ok((Instruction::Pop(o), j + 1)),
            Err(e) => Err(e),
        },
    }
}

/// The first macro record whose name token carries symbol `id`.
fn find_macro(dirs: &Vec<Macros>, id: SymbolId) -> (r: Option<usize>)
    ensures
        r == find_macro_from(records(dirs@), id, 0),
        r is Some ==> r->Some_0 < dirs@.len(),
{
    let mut k: usize = 0;
    while k < dirs.len()
        invariant
            k <= dirs@.len(),
            find_macro_from(records(dirs@), id, k as int) == find_macro_from(records(dirs@), id, 0),
        decreases dirs@.len() - k,
    {
        let ghost v = records(dirs@)[k as int];
        assert(v == dirs@[k as int]@);
        if let DirectiveBody::Macro { name, .. } = &dirs[k].body {
            if let Ok(s) = name.kind.get_sym() {
                if s == id {
                    return Some(k);
                }
            }
        }
        k = k + 1;
    }
    None
}

/// The value the entry offset takes from the table and the records.
fn entry_value(dirs: &Vec<Macros>, table: &SymbolTable) -> (e: i32)
    requires
        table.wf(),
    ensures
        e == entry_of(records(dirs@), table.slots()),
{
    proof {
        reveal_strlit(".entry");
        assert(".entry"@ =~= entry_name());
    }
    let eid = match table.get_id(".entry") {
        Some(eid) => eid,
        None => return 0,
    };
    let ghost d = records(dirs@);
    let mut k: usize = 0;
    while k < dirs.len()
        invariant
            k <= dirs@.len(),
            d == records(dirs@),
            id_of(table.slots(), entry_name()) == Some(eid.0),
            first_record(d, eid, k as int) == first_record(d, eid, 0),
        decreases dirs@.len() - k,
    {
        assert(d[k as int] == dirs@[k as int]@);
        if dirs[k].name == eid {
            assert(first_record(d, eid, k as int) == Some(k as int));
            let r = match &dirs[k].body {
                DirectiveBody::Generic { body } => {
                    if body.len() > 0 {
                        match body[0].kind {
                            TokensKind::Label(l) => match table.get_symbol(&l) {
                                Some(sym) => match sym.value {
                                    Some(v) => #[verifier::truncate]
                                    (v as i32),
                                    None => 0,
                                },
                                None => 0,
                            },
                            _ => 0,
                        }
                    } else {
                        0
                    }
                },
                _ => 0,
            };
            return r;
        }
        k = k + 1;
    }
    0
}

/// The macro body with each parameter reference replaced by its argument.
fn substitute_args(body: &Vec<Token>, args: &Vec<Token>) -> (r: Result<Vec<Token>, PassError>)
    ensures
        match substitute(body@, args@) {
            Ok(s) => r is Ok && r->Ok_0@ == s,
            Err(e) => r == Err::<Vec<Token>, PassError>(e),
        },
{
    let mut out: Vec<Token> = Vec::new();
    let mut k: usize = 0;
    proof {
        assert(body@.subrange(0, body@.len() as int) =~= body@);
        match substitute(body@, args@) {
            Ok(s) => {
                assert(out@ + s =~= s);
            },
            Err(_) => {},
        }
    }
    while k < body.len()
        invariant
            k <= body@.len(),
            substitute(body@, args@) == match substitute(body@.subrange(k as int, body@.len() as int), args@) {
                Ok(s) => Ok(out@ + s),
                Err(e) => Err::<Seq<Token>, PassError>(e),
            },
        decreases body@.len() - k,
    {
        let ghost rest = body@.subrange(k as int, body@.len() as int);
        assert(rest[0] == body@[k as int]);
        assert(rest.drop_first() =~= body@.subrange(k + 1, body@.len() as int));
        let tok = body[k];
        let x = match tok.kind {
            TokensKind::Param(p) => if p < args.len() {
                args[p]
            } else {
                return Err(PassError::MissingArgument(tok));
            },
            _ => tok,
        };
        let ghost pre = out@;
        out.push(x);
        proof {
            let tail = body@.subrange(k + 1, body@.len() as int);
            match substitute(tail, args@) {
                Ok(s) => {
                    assert(pre + (seq![x] + s) =~= out@ + s);
                },
                Err(e) => {},
            }
        }
        k = k + 1;
    }
    proof {
        assert(body@.subrange(k as int, body@.len() as int) =~= Seq::<Token>::empty());
        assert(out@ + Seq::<Token>::empty() =~= out@);
    }
    Ok(out)
}

fn contains_index(v: &Vec<usize>, x: usize) -> (r: bool)
    ensures
        r == v@.contains(x),
{
    let mut k: usize = 0;
    while k < v.len()
        invariant
            k <= v@.len(),
            forall|j: int| 0 <= j < k ==> v@[j] != x,
        decreases v@.len() - k,
    {
        if v[k] == x {
            return true;
        }
        k = k + 1;
    }
    false
}

fn run_pass(
    tokens: &Vec<Token>,
    dirs: &Vec<Macros>,
    table: &mut SymbolTable,
    active: &mut Vec<usize>,
) -> (r: Result<(i32, Vec<Instruction>), PassError>)
    requires
        old(table).wf(),
        old(active)@.len() <= dirs@.len(),
    ensures
        final(table).wf(),
        final(active)@ == old(active)@,
        ({
            let (res, t2) = second_spec(tokens@, records(dirs@), old(table).slots(), old(active)@);
            &&& final(table).slots() == t2
            &&& match res {
                Ok((e, ins)) => r is Ok && r->Ok_0.0 == e && r->Ok_0.1@ == ins,
                Err(e) => r == Err::<(i32, Vec<Instruction>), PassError>(e),
            }
        }),
    decreases dirs@.len() - old(active)@.len(),
{
    let ghost toks = tokens@;
    let ghost d = records(dirs@);
    let ghost t0 = table.slots();
    let entry = entry_value(dirs, table);
    let c0 = 0u32.wrapping_sub(#[verifier::truncate] (entry as u32));
    assert(c0 == start_cursor(entry));
    proof {
        match pass_from(toks, 0, c0, d, t0, active@).0 {
            Ok(s) => {
                assert(Seq::<Instruction>::empty() + s =~= s);
            },
            Err(_) => {},
        }
    }
    let mut cursor = c0;
    let mut out: Vec<Instruction> = Vec::new();
    let mut i: usize = 0;
    while i < tokens.len()
        invariant
            toks == tokens@,
            d == records(dirs@),
            i <= toks.len(),
            table.wf(),
            active@ == old(active)@,
            active@.len() <= dirs@.len(),
            t0 == old(table).slots(),
            entry == entry_of(d, t0),
            c0 == start_cursor(entry),
            pass_from(toks, 0, c0, d, t0, active@) == prepend(
                out@,
                pass_from(toks, i as int, cursor, d, table.slots(), active@),
            ),
        decreases toks.len() - i,
    {
        let cur = tokens[i];
        let ghost pre_out = out@;
        let ghost pre_slots = table.slots();
        match cur.kind {
            TokensKind::Mnemonic(op) => {
                let (ins, next) = match instruction_at(tokens, i + 1, op) {
                    Ok(p) => p,
                    Err(e) => return Err(e),
                };
                out.push(ins);
                cursor = cursor.wrapping_add(4);
                proof {
                    let rest = pass_from(toks, next as int, cursor, d, table.slots(), active@);
                    match rest.0 {
                        Ok(s) => {
                            assert(pre_out + (seq![ins] + s) =~= out@ + s);
                        },
                        Err(_) => {},
                    }
                }
                i = next;
            },
            TokensKind::Label(id) => {
                if i + 1 < tokens.len() && matches!(tokens[i + 1].kind, TokensKind::Semi) {
                    set_symbol_value(table, id, cursor);
                    i = i + 2;
                } else {
                    let k = match find_macro(dirs, id) {
                        Some(k) => k,
                        None => return Err(PassError::UnknownMacro(cur)),
                    };
                    if contains_index(active, k) || active.len() >= dirs.len() {
                        return Err(PassError::RecursiveMacro(cur));
                    }
                    assert(d[k as int] == dirs@[k as int]@);
                    let (parameters, body) = match &dirs[k].body {
                        DirectiveBody::Macro { parameters, body, .. } => (parameters, body),
                        DirectiveBody::Generic { .. } => return Err(PassError::RecursiveMacro(cur)),
                    };
                    let avail = tokens.len() - (i + 1);
                    let argn = if parameters.len() <= avail {
                        parameters.len()
                    } else {
                        avail
                    };
                    let args = slice_of(tokens, i + 1, i + 1 + argn);
                    let sub = match substitute_args(body, &args) {
                        Ok(s) => s,
                        Err(e) => return Err(e),
                    };
                    active.push(k);
                    let inner = run_pass(&sub, dirs, table, active);
                    active.pop();
                    proof {
                        assert(active@ =~= old(active)@);
                    }
                    let mut ins = match inner {
                        Ok((_, ins)) => ins,
                        Err(e) => return Err(e),
                    };
                    let ghost inner_ins = ins@;
                    out.append(&mut ins);
                    proof {
                        let rest = pass_from(
                            toks,
                            i + 1 + argn,
                            cursor,
                            d,
                            table.slots(),
                            active@,
                        );
                        match rest.0 {
                            Ok(s) => {
                                assert(pre_out + (inner_ins + s) =~= out@ + s);
                            },
                            Err(_) => {},
                        }
                    }
                    i = i + 1 + argn;
                }
            },
            TokensKind::Newline | TokensKind::Comment | TokensKind::Semi => {
                i = i + 1;
            },
            _ => {
                return Err(PassError::UnexpectedToken(cur));
            },
        }
    }
    proof {
        assert(out@ + Seq::<Instruction>::empty() =~= out@);
    }
    Ok((entry, out))
}

/// The product of the second pass.
#[derive(Debug, Clone)]
pub struct ResolvedTokens {
    /// The entry offset in bytes.
    pub entry: i32,
    pub instructions: Vec<Instruction>,
}

/// Emits the instructions of `tokens`, expanding macro invocations; a label followed by
/// `:` takes the address cursor, which starts at minus the entry offset, as its value.
pub fn second_pass(
    tokens: &Vec<Token>,
    directives: &Vec<Macros>,
    symbol_table: &mut SymbolTable,
) -> (r: Result<ResolvedTokens, PassError>)
    requires
        old(symbol_table).wf(),
    ensures
        final(symbol_table).wf(),
        ({
            let (res, t2) = second_spec(
                tokens@,
                records(directives@),
                old(symbol_table).slots(),
                Seq::empty(),
            );
            &&& final(symbol_table).slots() == t2
            &&& match res {
                Ok((e, ins)) => r is Ok && r->Ok_0.entry == e && r->Ok_0.instructions@ == ins,
                Err(e) => r == Err::<ResolvedTokens, PassError>(e),
            }
        }),
{
    let mut active: Vec<usize> = Vec::new();
    match run_pass(tokens, directives, symbol_table, &mut active) {
        Ok((entry, instructions)) => Ok(ResolvedTokens { entry, instructions }),
        Err(e) => Err(e),
    }
}


/// The little-endian bytes of the words of `ins`, in order.
pub open spec fn encode_all(ins: Seq<Instruction>) -> Seq<u8>
    decreases ins.len(),
{
    if ins.len() == 0 {
        Seq::empty()
    } else {
        encode_all(ins.drop_last()) + le32_bytes(encode_spec(ins.last()))
    }
}

/// The byte stream of a program: four little-endian bytes per instruction.
pub fn encode_program(ins: &Vec<Instruction>) -> (bytes: Vec<u8>)
    ensures
        bytes@ == encode_all(ins@),
{
    let mut bytes: Vec<u8> = Vec::new();
    let mut k: usize = 0;
    while k < ins.len()
        invariant
            k <= ins@.len(),
            bytes@ == encode_all(ins@.take(k as int)),
        decreases ins@.len() - k,
    {
        let w = ins[k].encode();
        let ghost pre = bytes@;
        bytes.push((w & 0xffu32) as u8);
        bytes.push(((w >> 8u32) & 0xffu32) as u8);
        bytes.push(((w >> 16u32) & 0xffu32) as u8);
        bytes.push(((w >> 24u32) & 0xffu32) as u8);
        proof {
            assert(ins@.take(k + 1).drop_last() =~= ins@.take(k as int));
            assert(ins@.take(k + 1).last() == ins@[k as int]);
            assert((w >> 0u32) == w) by (bit_vector);
            assert(bytes@ =~= pre + le32_bytes(w));
        }
        k = k + 1;
    }
    assert(ins@.take(ins@.len() as int) =~= ins@);
    bytes
}

/// Why assembling failed.
#[derive(Debug)]
pub enum AssembleError {
    /// The first pass found these error tokens; their text is in the symbol table.
    Tokens(Vec<Token>),
    /// The second pass stopped.
    Pass(PassError),
}

/// Assembles source text into the little-endian byte stream of its instructions, entering
/// its names into `symbol_table`.
pub fn assemble(source: &str, symbol_table: &mut SymbolTable) -> (r: Result<Vec<u8>, AssembleError>)
    requires
        source@.len() < usize::MAX,
        old(symbol_table).wf(),
    ensures
        final(symbol_table).wf(),
        ({
            let (toks, t1) = lex_from(source@, 0, 1, old(symbol_table).slots());
            let (out, errs, t2, d) = first_from(toks, 0, 0, t1, Seq::empty());
            let (res, t3) = second_spec(out, d, t2, Seq::empty());
            if errs.len() > 0 {
                &&& r is Err && r->Err_0 is Tokens && r->Err_0->Tokens_0@ == errs
                &&& final(symbol_table).slots() == t2
            } else {
                &&& final(symbol_table).slots() == t3
                &&& match res {
                    Ok((_, ins)) => r is Ok && r->Ok_0@ == encode_all(ins),
                    Err(e) => r is Err && r->Err_0 == AssembleError::Pass(e),
                }
            }
        }),
{
    let raw = tokenize(source, symbol_table);
    let mut directives: Vec<Macros> = Vec::new();
    proof {
        assert(records(directives@) =~= Seq::<MacroView>::empty());
    }
    let tokens = match first_pass(&raw, symbol_table, &mut directives) {
        Ok(t) => t,
        Err(errs) => return Err(AssembleError::Tokens(errs)),
    };
    match second_pass(&tokens, &directives, symbol_table) {
        Ok(resolved) => Ok(encode_program(&resolved.instructions)),
        Err(e) => Err(AssembleError::Pass(e)),
    }
}


/// How many mnemonic tokens `s` holds.
pub open spec fn mnemonic_count(s: Seq<Token>) -> nat
    decreases s.len(),
{
    if s.len() == 0 {
        0
    } else {
        mnemonic_count(s.drop_last()) + if s.last().kind is Mnemonic {
            1nat
        } else {
            0nat
        }
    }
}

/// The token carries no directive and no lexical error.
pub open spec fn is_plain(tok: Token) -> bool {
    !(tok.kind is Directive) && !(tok.kind is Error)
}

proof fn lemma_count_monotone(toks: Seq<Token>, i: int, j: int)
    requires
        0 <= i <= j <= toks.len(),
    ensures
        mnemonic_count(toks.take(i)) <= mnemonic_count(toks.take(j)),
    decreases j - i,
{
    if i < j {
        lemma_count_monotone(toks, i, j - 1);
        assert(toks.take(j).drop_last() =~= toks.take(j - 1));
    }
}

/// `t2` holds symbols in the same slots as `t`, under the same names.
pub open spec fn same_names(t: Slots, t2: Slots) -> bool {
    &&& t2.len() == t.len()
    &&& forall|k: int|
        0 <= k < t.len() ==> (#[trigger] t2[k] is Some <==> t[k] is Some) && (t[k] is Some
            ==> t2[k]->Some_0.name == t[k]->Some_0.name)
}

proof fn lemma_same_names_unique(t: Slots, t2: Slots)
    requires
        names_unique(t),
        same_names(t, t2),
    ensures
        names_unique(t2),
{
    assert forall|i: int, j: int|
        0 <= i < t2.len() && 0 <= j < t2.len() && t2[i] is Some && t2[j] is Some
            && #[trigger] t2[i]->Some_0.name == #[trigger] t2[j]->Some_0.name implies i == j by {
        assert(t[i] is Some && t[j] is Some);
    }
}

proof fn lemma_label_value_from(
    toks: Seq<Token>,
    s: int,
    i: int,
    index: u32,
    t: Slots,
    dirs: Seq<MacroView>,
    l: SymbolId,
    p: int,
)
    requires
        0 <= s <= i <= toks.len(),
        forall|j: int| s <= j < toks.len() ==> is_plain(#[trigger] toks[j]),
        s <= p < toks.len(),
        toks[p].kind == TokensKind::Label(l),
        forall|j: int| s <= j < toks.len() && j != p ==> toks[j].kind != TokensKind::Label(l),
        4 * mnemonic_count(toks.subrange(s, p)) <= u32::MAX,
        l.0 < t.len(),
        t[l.0 as int] is Some,
        i <= p ==> index == 4 * mnemonic_count(toks.subrange(s, i)),
        i > p ==> t[l.0 as int]->Some_0.value == Some(
            (4 * mnemonic_count(toks.subrange(s, p))) as u32,
        ),
    ensures
        ({
            let (_, _, t2, d2) = first_from(toks, i, index, t, dirs);
            &&& d2 == dirs
            &&& same_names(t, t2)
            &&& t2[l.0 as int]->Some_0.value == Some(
                (4 * mnemonic_count(toks.subrange(s, p))) as u32,
            )
        }),
    decreases toks.len() - i,
{
    if i < toks.len() {
        let st = first_step(toks, i, index, t, dirs);
        assert(is_plain(toks[i]));
        assert(toks.subrange(s, i + 1).drop_last() =~= toks.subrange(s, i));
        if i < p {
            let u = toks.subrange(s, p);
            lemma_count_monotone(u, i + 1 - s, p - s);
            assert(u.take(i + 1 - s) =~= toks.subrange(s, i + 1));
            assert(u.take(p - s) =~= u);
        }
        lemma_label_value_from(toks, s, i + 1, st.index, st.slots, st.dirs, l, p);
    }
}

/// After the first pass over tokens without directives or lexical errors, a label whose
/// only token stands after K mnemonic tokens has the value 4·K.
pub proof fn lemma_label_address(toks: Seq<Token>, t: Slots, dirs: Seq<MacroView>, l: SymbolId, p: int)
    requires
        forall|j: int| 0 <= j < toks.len() ==> is_plain(#[trigger] toks[j]),
        0 <= p < toks.len(),
        toks[p].kind == TokensKind::Label(l),
        forall|j: int| 0 <= j < toks.len() && j != p ==> toks[j].kind != TokensKind::Label(l),
        4 * mnemonic_count(toks.take(p)) <= u32::MAX,
        l.0 < t.len(),
        t[l.0 as int] is Some,
    ensures
        ({
            let t2 = first_from(toks, 0, 0, t, dirs).2;
            &&& t2[l.0 as int] is Some
            &&& t2[l.0 as int]->Some_0.value == Some((4 * mnemonic_count(toks.take(p))) as u32)
        }),
{
    assert(toks.subrange(0, 0) =~= Seq::<Token>::empty());
    assert(toks.subrange(0, p) =~= toks.take(p));
    lemma_label_value_from(toks, 0, 0, 0, t, dirs, l, p);
}

/// A program that opens with `.entry m` and whose other tokens hold no directive or
/// lexical error, where the only `m` label token stands after K mnemonic tokens: the
/// entry offset is 4·K.
pub proof fn lemma_entry_label(toks: Seq<Token>, t: Slots, e: SymbolId, m: SymbolId, q: int)
    requires
        names_unique(t),
        e.0 < t.len(),
        t[e.0 as int] is Some,
        t[e.0 as int]->Some_0.name == entry_name(),
        m.0 < t.len(),
        t[m.0 as int] is Some,
        toks.len() >= 3,
        toks[0].kind == TokensKind::Directive(e),
        toks[1].kind == TokensKind::Label(m),
        toks[2].kind is Newline,
        forall|j: int| 3 <= j < toks.len() ==> is_plain(#[trigger] toks[j]),
        3 <= q < toks.len(),
        toks[q].kind == TokensKind::Label(m),
        forall|j: int| 3 <= j < toks.len() && j != q ==> toks[j].kind != TokensKind::Label(m),
        4 * mnemonic_count(toks.subrange(3, q)) <= i32::MAX,
    ensures
        ({
            let (out, errs, t2, d) = first_from(toks, 0, 0, t, Seq::empty());
            let n = mnemonic_count(toks.subrange(3, q));
            &&& entry_of(d, t2) == 4 * n
            &&& second_spec(out, d, t2, Seq::empty()).0 is Ok ==> second_spec(
                out,
                d,
                t2,
                Seq::empty(),
            ).0->Ok_0.0 == 4 * n
        }),
{
    let n = mnemonic_count(toks.subrange(3, q));
    assert(directive_named(entry_name()) == Some(Directives::Entry));
    assert(find_newline(toks, 2) == 2);
    assert(find_newline(toks, 1) == 2);
    let st = first_step(toks, 0, 0, t, Seq::empty());
    let rec = MacroView { name: e, body: BodyView::Generic { body: toks.subrange(1, 3) } };
    assert(st.dirs == seq![rec]);
    assert(st.next == 3);
    assert(toks.subrange(3, 3) =~= Seq::<Token>::empty());
    lemma_label_value_from(toks, 3, 3, 0, t, st.dirs, m, q);
    let (out, errs, t2, d) = first_from(toks, 0, 0, t, Seq::empty());
    lemma_same_names_unique(t, t2);
    lemma_id_of_slot(t2, e.0 as int, entry_name());
    assert(first_record(d, e, 0) == Some(0int));
    assert(((4 * n) as u32) as i32 == 4 * n);
}

/// A macro invocation emits exactly what its body emits with each parameter reference
/// replaced by its argument, then the pass goes on right after the arguments.
pub proof fn lemma_macro_expansion(
    toks: Seq<Token>,
    i: int,
    cursor: u32,
    dirs: Seq<MacroView>,
    t: Slots,
    active: Seq<usize>,
    id: SymbolId,
    k: usize,
)
    requires
        0 <= i < toks.len(),
        toks[i].kind == TokensKind::Label(id),
        !(i + 1 < toks.len() && toks[i + 1].kind is Semi),
        find_macro_from(dirs, id, 0) == Some(k),
        !active.contains(k),
        active.len() < dirs.len(),
        dirs[k as int].body is Macro,
        dirs[k as int].body->Macro_parameters.len() <= toks.len() - (i + 1),
        substitute(
            dirs[k as int].body->Macro_body,
            toks.subrange(i + 1, i + 1 + dirs[k as int].body->Macro_parameters.len()),
        ) is Ok,
    ensures
        ({
            let np = dirs[k as int].body->Macro_parameters.len();
            let sub = substitute(
                dirs[k as int].body->Macro_body,
                toks.subrange(i + 1, i + 1 + np),
            )->Ok_0;
            let (inner, t2) = second_spec(sub, dirs, t, active.push(k));
            &&& inner is Err ==> pass_from(toks, i, cursor, dirs, t, active) == (
                Err::<Seq<Instruction>, PassError>(inner->Err_0),
                t2,
            )
            &&& inner is Ok ==> pass_from(toks, i, cursor, dirs, t, active) == prepend(
                inner->Ok_0.1,
                pass_from(toks, i + 1 + np, cursor, dirs, t2, active),
            )
        }),
{
}

} // verus!
