use jcore::assembler::directives::Directives;
use jcore::assembler::lexer::{tokenize, Token, TokenError, TokensKind};
use jcore::assembler::symbols::{SymbolId, SymbolKind, SymbolTable};
use jcore::assembler::{assemble, first_pass, second_pass, AssembleError, Macros, PassError};
use jcore::opcode::{Instruction, Op, Operand};
use jcore::register::Register;

fn passes(source: &str) -> (Result<jcore::assembler::ResolvedTokens, PassError>, SymbolTable) {
    let mut table = SymbolTable::new();
    let raw = tokenize(source, &mut table);
    let mut dirs: Vec<Macros> = Vec::new();
    let toks = first_pass(&raw, &mut table, &mut dirs).unwrap();
    let r = second_pass(&toks, &dirs, &mut table);
    (r, table)
}

fn kinds(tokens: &[Token]) -> Vec<TokensKind> {
    tokens.iter().map(|t| t.kind).collect()
}

#[test]
fn lexes_instruction_line() {
    let mut table = SymbolTable::new();
    let toks = tokenize("Add r0, R1, #0x10 ; note\nnop", &mut table);
    assert_eq!(
        kinds(&toks),
        vec![
            TokensKind::Mnemonic(Op::Add),
            TokensKind::Register(Register::R0),
            TokensKind::Comma,
            TokensKind::Register(Register::R1),
            TokensKind::Comma,
            TokensKind::Imm(16),
            TokensKind::Comment,
            TokensKind::Newline,
            TokensKind::Mnemonic(Op::Nop),
        ]
    );
    assert_eq!(toks[0].line, 1);
    assert_eq!(toks[7].line, 2);
    assert_eq!(toks[8].line, 2);
}

#[test]
fn lexes_immediates() {
    let mut table = SymbolTable::new();
    let toks = tokenize("#127 #128 #40000 #2147483647 #0xff", &mut table);
    assert_eq!(
        kinds(&toks),
        vec![
            TokensKind::Imm(127),
            TokensKind::Imm(128),
            TokensKind::Imm(40000),
            TokensKind::Imm(2147483647),
            TokensKind::Imm(255),
        ]
    );
}

#[test]
fn lexes_bad_immediate_as_error() {
    let mut table = SymbolTable::new();
    let toks = tokenize("#2147483648 #ff", &mut table);
    match toks[0].kind {
        TokensKind::Error(id) => {
            assert_eq!(table.get_symbol(&id).unwrap().name, "2147483648");
        }
        _ => panic!("expected an error token"),
    }
    assert!(matches!(toks[1].kind, TokensKind::Error(_)));
}

#[test]
fn lexes_labels_directives_params() {
    let mut table = SymbolTable::new();
    let toks = tokenize(".entry _main\n_main: %2 %0", &mut table);
    let main = table.get_id("_main").unwrap();
    let entry = table.get_id(".entry").unwrap();
    assert_eq!(toks[0].kind, TokensKind::Directive(entry));
    assert_eq!(toks[1].kind, TokensKind::Label(main));
    assert_eq!(toks[3].kind, TokensKind::Label(main));
    assert_eq!(toks[4].kind, TokensKind::Semi);
    assert_eq!(toks[5].kind, TokensKind::Param(1));
    assert!(matches!(toks[6].kind, TokensKind::Error(_)));
    let sym = table.get_symbol(&entry).unwrap();
    assert_eq!(sym.kind, SymbolKind::Directive);
    assert_eq!(table.get_symbol(&main).unwrap().kind, SymbolKind::Label);
}

#[test]
fn lexes_stray_character_as_error_until_whitespace() {
    let mut table = SymbolTable::new();
    let toks = tokenize("$abc nop", &mut table);
    match toks[0].kind {
        TokensKind::Error(id) => assert_eq!(table.get_symbol(&id).unwrap().name, "$abc"),
        _ => panic!("expected an error token"),
    }
    assert_eq!(toks[1].kind, TokensKind::Mnemonic(Op::Nop));
}

#[test]
fn insert_interns_names() {
    let mut table = SymbolTable::new();
    let a = table.insert("foo", SymbolKind::Label, None, 1);
    let b = table.insert("bar", SymbolKind::Label, Some(3), 2);
    let a2 = table.insert("foo", SymbolKind::Directive, Some(9), 7);
    assert_eq!(a, SymbolId(0));
    assert_eq!(b, SymbolId(1));
    assert_eq!(a, a2);
    assert_eq!(table.get_id("foo"), Some(a));
    assert_eq!(table.get_id("baz"), None);
    let s = table.get_symbol(&a).unwrap();
    assert_eq!(s.kind, SymbolKind::Label);
    assert_eq!(s.value, None);
    assert_eq!(s.line, 1);
}

#[test]
fn update_and_reserved_ids() {
    let mut table = SymbolTable::new();
    let a = table.insert("foo", SymbolKind::Label, None, 1);
    table.update(a, |s| s.with_value(12));
    assert_eq!(table.get_symbol(&a).unwrap().value, Some(12));
    let r = table.next_id();
    assert_eq!(r, SymbolId(1));
    assert!(table.get_symbol(&r).is_none());
    table.update(r, |s| s.with_value(1));
    assert!(table.get_symbol(&r).is_none());
    assert_eq!(table.insert("bar", SymbolKind::Label, None, 1), SymbolId(2));
}

#[test]
fn interned_strings_are_shared() {
    let mut table = SymbolTable::new();
    let a = table.intern_str("x");
    let b = table.intern_string("x".to_string());
    assert_eq!(a, "x");
    assert_eq!(a, b);
}

#[test]
fn label_takes_address_of_following_instruction() {
    let mut table = SymbolTable::new();
    let raw = tokenize("nop\nnop\nhere: nop\n", &mut table);
    let mut dirs: Vec<Macros> = Vec::new();
    first_pass(&raw, &mut table, &mut dirs).unwrap();
    let here = table.get_id("here").unwrap();
    assert_eq!(table.get_symbol(&here).unwrap().value, Some(8));
}

#[test]
fn entry_offset_of_main() {
    let (r, _) = passes(".entry _main\nnop\n_main: nop\nnop\n");
    let r = r.unwrap();
    assert_eq!(r.entry, 4);
    assert_eq!(r.instructions, vec![Instruction::Nop, Instruction::Nop, Instruction::Nop]);
}

#[test]
fn entry_defaults_to_zero() {
    let (r, _) = passes("nop\n");
    assert_eq!(r.unwrap().entry, 0);
}

#[test]
fn macro_expands_to_one_instruction() {
    let (r, _) = passes(".macro inc %1\n Add %1,%1,#1\n.endmacro\n inc r0");
    assert_eq!(
        r.unwrap().instructions,
        vec![Instruction::Add(Register::R0, Register::R0, Operand::Imm(1))]
    );
}

#[test]
fn macro_with_two_arguments_between_instructions() {
    let (r, _) = passes(".macro mv %1 %2\n Ldr %1, %2\n.endmacro\n\nnop\nmv r1 #5\npush r1\n");
    assert_eq!(
        r.unwrap().instructions,
        vec![
            Instruction::Nop,
            Instruction::Ldr(Register::R1, Operand::Imm(5)),
            Instruction::Push(Operand::Reg(Register::R1)),
        ]
    );
}

#[test]
fn recursive_macro_is_refused() {
    let (r, _) = passes(".macro again\n again\n.endmacro\nagain\n");
    assert!(matches!(r, Err(PassError::RecursiveMacro(_))));
}

#[test]
fn unknown_macro_is_refused() {
    let (r, _) = passes("nop\nfoo\n");
    assert!(matches!(r, Err(PassError::UnknownMacro(_))));
}

#[test]
fn missing_comma_is_refused() {
    let (r, _) = passes("add r0 r1, r2");
    match r {
        Err(PassError::ExpectedComma(t)) => assert_eq!(t.kind, TokensKind::Register(Register::R1)),
        _ => panic!("expected a missing comma"),
    }
}

#[test]
fn wrong_operand_kinds_are_refused() {
    let (r, _) = passes("add r0, #1, r2");
    assert!(matches!(r, Err(PassError::ExpectedRegister(_))));
    let (r, _) = passes("push ,");
    assert!(matches!(r, Err(PassError::ExpectedOperand(_))));
    let (r, _) = passes("push");
    assert_eq!(r.unwrap_err(), PassError::UnexpectedEnd);
    let (r, _) = passes(", nop");
    assert!(matches!(r, Err(PassError::UnexpectedToken(_))));
}

#[test]
fn first_pass_reports_every_error() {
    let mut table = SymbolTable::new();
    let raw = tokenize("nop\n$ nop\n? nop\n.bogus\n", &mut table);
    let mut dirs: Vec<Macros> = Vec::new();
    let errs = first_pass(&raw, &mut table, &mut dirs).unwrap_err();
    assert_eq!(errs.len(), 3);
    assert_eq!(errs[0].line, 2);
    assert!(matches!(errs[2].kind, TokensKind::Directive(_)));
}

#[test]
fn stray_endmacro_is_an_error() {
    let mut table = SymbolTable::new();
    let raw = tokenize("nop\n.endmacro\n", &mut table);
    let mut dirs: Vec<Macros> = Vec::new();
    assert!(first_pass(&raw, &mut table, &mut dirs).is_err());
}

#[test]
fn assemble_to_bytes() {
    let mut table = SymbolTable::new();
    let bytes = assemble("nop\npush #7\n", &mut table).unwrap();
    assert_eq!(bytes, vec![0x00, 0x00, 0x00, 0x6f, 0x07, 0x00, 0x00, 0xB3]);
}

#[test]
fn assemble_reports_lexical_errors() {
    let mut table = SymbolTable::new();
    match assemble("nop\n@@ nop\n", &mut table) {
        Err(AssembleError::Tokens(errs)) => {
            assert_eq!(errs.len(), 1);
            match errs[0].kind {
                TokensKind::Error(id) => assert_eq!(table.get_symbol(&id).unwrap().name, "@@"),
                _ => panic!("expected an error token"),
            }
        }
        _ => panic!("expected lexical errors"),
    }
}

#[test]
fn token_accessors() {
    assert_eq!(TokensKind::Register(Register::R2).get_reg(), Ok(Register::R2));
    assert_eq!(TokensKind::Comma.get_reg(), Err(TokenError::NotRegister));
    assert_eq!(TokensKind::Mnemonic(Op::Div).get_op(), Ok(Op::Div));
    assert_eq!(TokensKind::Imm(-3).get_imm(), Ok(-3));
    assert_eq!(TokensKind::Label(SymbolId(4)).get_sym(), Ok(SymbolId(4)));
    assert_eq!(TokensKind::Newline.get_sym(), Err(TokenError::NotSymbol));
    assert!(TokensKind::Param(0).is_param());
    assert_eq!(TokensKind::Param(2).get_param(), Ok(2));
    assert_eq!(TokensKind::Semi.get_param(), Err(TokenError::NotParam));
}

#[test]
fn directive_names() {
    assert_eq!(Directives::from_name(&".entry".to_string()), Some(Directives::Entry));
    assert_eq!(Directives::from_name(&".endmacro".to_string()), Some(Directives::MacroEnd));
    assert_eq!(Directives::from_name(&".text".to_string()), None);
}

#[test]
fn missing_macro_argument_is_refused() {
    let (r, _) = passes(".macro m %1\n push %2\n.endmacro\nm r0\n");
    match r {
        Err(PassError::MissingArgument(t)) => assert_eq!(t.kind, TokensKind::Param(1)),
        _ => panic!("expected a missing argument"),
    }
}

#[test]
fn token_accessor_errors() {
    assert_eq!(TokensKind::Comma.get_op(), Err(TokenError::NotMnemonic));
    assert_eq!(TokensKind::Register(Register::R0).get_imm(), Err(TokenError::NotImmediate));
    assert!(!TokensKind::Imm(1).is_param());
}

#[test]
fn assemble_reports_pass_errors() {
    let mut table = SymbolTable::new();
    match assemble("ldr #1, r0\n", &mut table) {
        Err(AssembleError::Pass(PassError::ExpectedRegister(t))) => {
            assert_eq!(t.kind, TokensKind::Imm(1))
        }
        _ => panic!("expected a pass error"),
    }
}

#[test]
fn lexer_reads_one_token_at_a_time() {
    let mut table = SymbolTable::new();
    let mut lexer = jcore::assembler::lexer::Lexer::new("  pop sp\n");
    assert_eq!(lexer.next_token(&mut table).kind, TokensKind::Mnemonic(Op::Pop));
    assert_eq!(lexer.next_token(&mut table).kind, TokensKind::Register(Register::SP));
    let nl = lexer.next_token(&mut table);
    assert_eq!(nl.kind, TokensKind::Newline);
    assert_eq!(nl.line, 2);
    assert_eq!(lexer.next_token(&mut table).kind, TokensKind::Eof);
}

#[test]
fn registers_and_mnemonics_ignore_case() {
    let mut table = SymbolTable::new();
    let toks = tokenize("FLAGS Bp pUsH", &mut table);
    assert_eq!(
        kinds(&toks),
        vec![
            TokensKind::Register(Register::FLAGS),
            TokensKind::Register(Register::BP),
            TokensKind::Mnemonic(Op::Push),
        ]
    );
}

#[test]
fn nul_character_ends_the_tokens() {
    let mut table = SymbolTable::new();
    let toks = tokenize("nop\0nop", &mut table);
    assert_eq!(kinds(&toks), vec![TokensKind::Mnemonic(Op::Nop)]);
}
