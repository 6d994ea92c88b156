use std::io::{Cursor, Read, Write};

use toyasm::assemble::{assemble, encode_program, to_bytes, AsmError};
use toyasm::encode::{
    add_imm_bits, add_reg_bits, encode, reg_to_binary, resolve_field, EncodeError,
    ResolutionError,
};
use toyasm::model::{Instruction, OType, Operand, Ops};
use toyasm::parse::{parse_instruction, SyntaxError, SyntaxErrorKind, TrailingInput};

fn register(name: &str) -> Operand {
    Operand { name: name.to_string(), o_type: OType::REG }
}

fn immediate(name: &str) -> Operand {
    Operand { name: name.to_string(), o_type: OType::IMM }
}

fn instruction(text: &str) -> Instruction {
    let (rest, parsed) = parse_instruction(text.as_bytes()).unwrap();
    assert_eq!(rest, b"");
    parsed
}

#[test]
fn opcodes() {
    assert_eq!(Ops::ADD.opcode(), 0b0001);
    assert_eq!(Ops::LD.opcode(), 0b0010);
    assert_eq!(Ops::STORE.opcode(), 0b0011);
}

#[test]
fn register_names_resolve_to_their_index() {
    assert_eq!(reg_to_binary(&register("r1")), Ok(1));
    assert_eq!(reg_to_binary(&register("r2")), Ok(2));
    assert_eq!(reg_to_binary(&register("r3")), Ok(3));
    assert_eq!(reg_to_binary(&register("r4")), Ok(4));
    assert_eq!(reg_to_binary(&register("r5")), Ok(5));
}

#[test]
fn other_register_tokens_resolve_as_integers() {
    assert_eq!(reg_to_binary(&register("0")), Ok(0));
    assert_eq!(reg_to_binary(&register("7")), Ok(7));
    assert_eq!(reg_to_binary(&register("42")), Ok(42));
    assert_eq!(reg_to_binary(&register("007")), Ok(7));
    assert_eq!(reg_to_binary(&register("65535")), Ok(65535));
}

#[test]
fn tokens_that_are_neither_fail_to_resolve() {
    assert_eq!(reg_to_binary(&register("r0")), Err(ResolutionError::NotAnInteger));
    assert_eq!(reg_to_binary(&register("r6")), Err(ResolutionError::NotAnInteger));
    assert_eq!(reg_to_binary(&register("r10")), Err(ResolutionError::NotAnInteger));
    assert_eq!(reg_to_binary(&register("R1")), Err(ResolutionError::NotAnInteger));
    assert_eq!(reg_to_binary(&register("r")), Err(ResolutionError::NotAnInteger));
    assert_eq!(reg_to_binary(&register("x")), Err(ResolutionError::NotAnInteger));
    assert_eq!(reg_to_binary(&register("1a")), Err(ResolutionError::NotAnInteger));
    assert_eq!(reg_to_binary(&register("")), Err(ResolutionError::NotAnInteger));
    assert_eq!(reg_to_binary(&register("65536")), Err(ResolutionError::NotAnInteger));
    assert_eq!(reg_to_binary(&register("99999999999999999999")), Err(ResolutionError::NotAnInteger));
}

#[test]
fn tokens_outside_the_grammar_follow_the_integer_syntax() {
    assert_eq!(reg_to_binary(&register("+5")), Ok(5));
    assert_eq!(reg_to_binary(&register("+")), Err(ResolutionError::NotAnInteger));
    assert_eq!(reg_to_binary(&register("-5")), Err(ResolutionError::NotAnInteger));
    assert_eq!(reg_to_binary(&register(" 5")), Err(ResolutionError::NotAnInteger));
    assert_eq!(reg_to_binary(&register("5 ")), Err(ResolutionError::NotAnInteger));
    assert_eq!(reg_to_binary(&register("1_0")), Err(ResolutionError::NotAnInteger));
    assert_eq!(reg_to_binary(&register("\u{0663}")), Err(ResolutionError::NotAnInteger));
    assert_eq!(reg_to_binary(&register("r\u{00e9}")), Err(ResolutionError::NotAnInteger));
}

#[test]
fn immediates_resolve_as_integers_only() {
    assert_eq!(reg_to_binary(&immediate("4")), Ok(4));
    assert_eq!(reg_to_binary(&immediate("31")), Ok(31));
    assert_eq!(reg_to_binary(&immediate("300")), Ok(300));
    assert_eq!(reg_to_binary(&immediate("r1")), Err(ResolutionError::NotAnInteger));
    assert_eq!(reg_to_binary(&immediate("abc")), Err(ResolutionError::NotAnInteger));
}

#[test]
fn resolve_field_checks_the_width() {
    assert_eq!(resolve_field(&register("r5"), 8), Ok(5));
    assert_eq!(resolve_field(&register("7"), 8), Ok(7));
    assert_eq!(resolve_field(&register("8"), 8), Err(ResolutionError::TooWide));
    assert_eq!(resolve_field(&immediate("31"), 32), Ok(31));
    assert_eq!(resolve_field(&immediate("32"), 32), Err(ResolutionError::TooWide));
    assert_eq!(resolve_field(&immediate("x"), 32), Err(ResolutionError::NotAnInteger));
    assert_eq!(resolve_field(&register("0"), 0), Err(ResolutionError::TooWide));
}

#[test]
fn immediate_form_of_add() {
    let word = encode(&instruction("add r1 r2 $4;")).unwrap();
    assert_eq!(word, 0b0001_001_010_1_00100);
    assert_eq!(word, 0x12a4);
    assert_eq!(word >> 12, 0b0001);
    assert_eq!((word >> 9) & 0b111, 0b001);
    assert_eq!((word >> 6) & 0b111, 0b010);
    assert_eq!((word >> 5) & 0b1, 1);
    assert_eq!(word & 0b11111, 0b00100);
}

#[test]
fn register_form_of_add() {
    let word = encode(&instruction("add r2 r3 r5;")).unwrap();
    assert_eq!(word, 0b0001_010_011_000_101);
    assert_eq!(word, 0x14c5);
    assert_eq!(word >> 12, 0b0001);
    assert_eq!((word >> 9) & 0b111, 0b010);
    assert_eq!((word >> 6) & 0b111, 0b011);
    assert_eq!((word >> 3) & 0b111, 0b000);
    assert_eq!(word & 0b111, 0b101);
}

#[test]
fn forms_of_the_other_operations() {
    assert_eq!(encode(&instruction("ld r1 r2 r3;")), Ok(0b0010_001_010_000_011));
    assert_eq!(encode(&instruction("store r5 r4 $0;")), Ok(0b0011_101_100_1_00000));
    assert_eq!(encode(&instruction("store 7 7 $31;")), Ok(0b0011_111_111_1_11111));
    assert_eq!(encode(&instruction("ld 0 0 0;")), Ok(0b0010_000_000_000_000));
}

#[test]
fn the_form_follows_the_mode() {
    let with_immediate = instruction("add r1 r2 $4;");
    assert_eq!(encode(&with_immediate), add_imm_bits(&with_immediate));
    let registers_only = instruction("add r2 r3 r5;");
    assert_eq!(encode(&registers_only), add_reg_bits(&registers_only));
    assert_eq!(encode(&instruction("add $1 r2 r3;")), Ok(0b0001_001_010_1_00011));
}

#[test]
fn each_form_can_be_asked_for() {
    let registers_only = instruction("add r2 r3 r5;");
    assert_eq!(add_imm_bits(&registers_only), Ok(0b0001_010_011_1_00101));
    assert_eq!(add_reg_bits(&registers_only), Ok(0b0001_010_011_000_101));
    let wide = instruction("add r2 r3 $9;");
    assert_eq!(add_imm_bits(&wide), Ok(0b0001_010_011_1_01001));
    assert_eq!(
        add_reg_bits(&wide),
        Err(EncodeError::Resolution { index: 2, cause: ResolutionError::TooWide })
    );
}

#[test]
fn wrong_operand_count_is_an_arity_error() {
    assert_eq!(encode(&instruction("add ;")), Err(EncodeError::Arity { found: 0 }));
    assert_eq!(encode(&instruction("add r1;")), Err(EncodeError::Arity { found: 1 }));
    assert_eq!(encode(&instruction("add r1 r2;")), Err(EncodeError::Arity { found: 2 }));
    assert_eq!(encode(&instruction("add r1 r2 r3 r4;")), Err(EncodeError::Arity { found: 4 }));
    assert_eq!(encode(&instruction("ld r1 $2;")), Err(EncodeError::Arity { found: 2 }));
    assert_eq!(
        add_imm_bits(&instruction("store r1 r2 r3 $4;")),
        Err(EncodeError::Arity { found: 4 })
    );
    assert_eq!(add_reg_bits(&instruction("store r1;")), Err(EncodeError::Arity { found: 1 }));
}

#[test]
fn arity_is_checked_before_resolution() {
    assert_eq!(encode(&instruction("add x y;")), Err(EncodeError::Arity { found: 2 }));
}

#[test]
fn unresolved_operand_is_reported_with_its_index() {
    assert_eq!(
        encode(&instruction("add rx r2 r3;")),
        Err(EncodeError::Resolution { index: 0, cause: ResolutionError::NotAnInteger })
    );
    assert_eq!(
        encode(&instruction("add r1 r9 r3;")),
        Err(EncodeError::Resolution { index: 1, cause: ResolutionError::NotAnInteger })
    );
    assert_eq!(
        encode(&instruction("add r1 r2 $r3;")),
        Err(EncodeError::Resolution { index: 2, cause: ResolutionError::NotAnInteger })
    );
    assert_eq!(
        encode(&instruction("add x y z;")),
        Err(EncodeError::Resolution { index: 0, cause: ResolutionError::NotAnInteger })
    );
}

#[test]
fn value_too_wide_for_its_field_is_rejected() {
    assert_eq!(
        encode(&instruction("add 8 r2 r3;")),
        Err(EncodeError::Resolution { index: 0, cause: ResolutionError::TooWide })
    );
    assert_eq!(
        encode(&instruction("add r1 8 r3;")),
        Err(EncodeError::Resolution { index: 1, cause: ResolutionError::TooWide })
    );
    assert_eq!(
        encode(&instruction("add r1 r2 8;")),
        Err(EncodeError::Resolution { index: 2, cause: ResolutionError::TooWide })
    );
    assert_eq!(
        encode(&instruction("add r1 r2 $32;")),
        Err(EncodeError::Resolution { index: 2, cause: ResolutionError::TooWide })
    );
    assert_eq!(
        encode(&instruction("add $8 r2 r3;")),
        Err(EncodeError::Resolution { index: 0, cause: ResolutionError::TooWide })
    );
    assert_eq!(encode(&instruction("add r1 r2 $31;")), Ok(0b0001_001_010_1_11111));
    assert_eq!(encode(&instruction("add r1 r2 7;")), Ok(0b0001_001_010_000_111));
}

#[test]
fn hand_built_instruction_encodes_like_a_parsed_one() {
    let built = Instruction::new(
        Ops::ADD,
        vec![register("r1"), register("r2"), immediate("4")],
    );
    assert_eq!(encode(&built), Ok(0x12a4));
}

#[test]
fn words_are_serialised_high_byte_first() {
    assert_eq!(to_bytes(&[]), Vec::<u8>::new());
    assert_eq!(to_bytes(&[0x12a4]), vec![0x12, 0xa4]);
    assert_eq!(to_bytes(&[0x0102, 0xfffe, 0x0000]), vec![0x01, 0x02, 0xff, 0xfe, 0x00, 0x00]);
    assert_eq!(to_bytes(&[0x12a4]), 0x12a4u16.to_be_bytes().to_vec());
}

#[test]
fn program_is_encoded_in_order() {
    let program = vec![instruction("add r1 r2 $4;"), instruction("add r2 r3 r5;")];
    assert_eq!(encode_program(&program), Ok(vec![0x12a4, 0x14c5]));
    assert_eq!(encode_program(&[]), Ok(vec![]));
}

#[test]
fn first_instruction_without_encoding_is_reported() {
    let program = vec![
        instruction("add r1 r2 $4;"),
        instruction("add r1 r2;"),
        instruction("add x y z;"),
    ];
    assert_eq!(
        encode_program(&program),
        Err(AsmError::Encode { instruction: 1, error: EncodeError::Arity { found: 2 } })
    );
}

#[test]
fn assemble_two_instructions() {
    assert_eq!(
        assemble(b"add r1 r2 $4;add r2 r3 r5;"),
        Ok(vec![0x12, 0xa4, 0x14, 0xc5])
    );
}

#[test]
fn assemble_empty_input_gives_no_bytes() {
    assert_eq!(assemble(b""), Ok(vec![]));
}

#[test]
fn assemble_rejects_white_space_between_instructions() {
    let expected = Err(AsmError::Syntax(TrailingInput {
        position: 13,
        cause: SyntaxError { kind: SyntaxErrorKind::UnknownMnemonic, position: 13 },
    }));
    assert_eq!(assemble(b"add r1 r2 $4; add r2 r3 r5;"), expected);
    assert_eq!(assemble(b"add r1 r2 $4;\nadd r2 r3 r5;"), expected);
    assert_eq!(assemble(b"add r1 r2 $4;\tadd r2 r3 r5;"), expected);
    assert_eq!(assemble(b"add r1 r2 $4;\r\nadd r2 r3 r5;"), expected);
}

#[test]
fn assemble_rejects_leading_and_trailing_white_space() {
    assert_eq!(
        assemble(b" add r1 r2 $4;"),
        Err(AsmError::Syntax(TrailingInput {
            position: 0,
            cause: SyntaxError { kind: SyntaxErrorKind::UnknownMnemonic, position: 0 },
        }))
    );
    assert_eq!(
        assemble(b"add r1 r2 $4;\n"),
        Err(AsmError::Syntax(TrailingInput {
            position: 13,
            cause: SyntaxError { kind: SyntaxErrorKind::UnknownMnemonic, position: 13 },
        }))
    );
}

#[test]
fn assemble_reports_syntax_before_encoding() {
    assert_eq!(
        assemble(b"add r1 r2;add r1 r2"),
        Err(AsmError::Syntax(TrailingInput {
            position: 10,
            cause: SyntaxError { kind: SyntaxErrorKind::MissingSemicolon, position: 19 },
        }))
    );
}

#[test]
fn assemble_reports_the_instruction_that_has_no_encoding() {
    assert_eq!(
        assemble(b"add r1 r2 $4;ld r1 r2 r3 r4;"),
        Err(AsmError::Encode { instruction: 1, error: EncodeError::Arity { found: 4 } })
    );
    assert_eq!(
        assemble(b"add r1 r2 $40;"),
        Err(AsmError::Encode {
            instruction: 0,
            error: EncodeError::Resolution { index: 2, cause: ResolutionError::TooWide },
        })
    );
    assert_eq!(
        assemble(b"store r1 r2 r3;store r1 r2 r3;store r1 zz r3;"),
        Err(AsmError::Encode {
            instruction: 2,
            error: EncodeError::Resolution { index: 1, cause: ResolutionError::NotAnInteger },
        })
    );
}

#[test]
fn assemble_gives_two_bytes_for_each_instruction() {
    let bytes = assemble(b"ld r1 r2 r3;ld r1 r2 r3;ld r1 r2 r3;ld r1 r2 $3;ld 1 2 3;").unwrap();
    assert_eq!(bytes.len(), 10);
    assert_eq!(&bytes[0..2], &[0x22, 0x83]);
    assert_eq!(&bytes[6..8], &[0x22, 0xa3]);
    assert_eq!(&bytes[8..10], &[0x22, 0x83]);
}

#[test]
fn bytes_survive_a_sink_and_a_source() {
    let bytes = assemble(b"add r1 r2 $4;add r2 r3 r5;").unwrap();
    let mut sink = Cursor::new(Vec::<u8>::new());
    sink.write_all(&bytes).unwrap();
    let mut source = Cursor::new(sink.into_inner());
    let mut read_back = Vec::<u8>::new();
    source.read_to_end(&mut read_back).unwrap();
    assert_eq!(read_back, bytes);
    assert_eq!(read_back, vec![0x12, 0xa4, 0x14, 0xc5]);
}
