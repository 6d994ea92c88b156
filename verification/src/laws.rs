//! Laws of the grammar and of the encoding, each proved from the definitions
//! that the contracts of the parsers and encoders are stated in.

use vstd::prelude::*;
use crate::assemble::{AsmError, big_endian, spec_assemble, spec_encode_program};
use crate::encode::{
    EncodeError, immediate_word, register_index, register_word, spec_add_imm_bits,
    spec_add_reg_bits, spec_encode, spec_resolve,
};
use crate::model::{InstructionView, OType, OperandView, Ops};
use crate::parse::{
    SEMICOLON, SIGIL, SPACE, SyntaxError, SyntaxErrorKind, TrailingInput, alnum_run,
    lemma_alnum_run, lemma_alnum_run_is, lemma_instruction_consumes, lemma_operand_consumes,
    lemma_operand_tail_rest, spec_operand_list, spec_operand_tail, spec_parse_all,
    spec_parse_instruction, spec_parse_op, spec_parse_operand, spec_parse_program,
};
use crate::primitives::{is_alphanumeric, spec_parse_u16};

verus! {

/// Register resolution: the names `r1` to `r5` stand for 1 to 5; every other
/// register token, and every immediate token, stands for the unsigned integer
/// that it spells, and for nothing when it spells none.
pub proof fn lemma_resolution(operand: OperandView)
    ensures
        operand.o_type == OType::REG ==> {
            &&& operand.name == seq!['r', '1'] ==> spec_resolve(operand) == Some(1u16)
            &&& operand.name == seq!['r', '2'] ==> spec_resolve(operand) == Some(2u16)
            &&& operand.name == seq!['r', '3'] ==> spec_resolve(operand) == Some(3u16)
            &&& operand.name == seq!['r', '4'] ==> spec_resolve(operand) == Some(4u16)
            &&& operand.name == seq!['r', '5'] ==> spec_resolve(operand) == Some(5u16)
            &&& register_index(operand.name) is None ==> spec_resolve(operand) == spec_parse_u16(
                operand.name,
            )
        },
        operand.o_type == OType::IMM ==> spec_resolve(operand) == spec_parse_u16(operand.name),
        register_index(operand.name) is Some ==> {
            &&& operand.name.len() == 2
            &&& operand.name[0] == 'r'
            &&& '1' <= operand.name[1] <= '5'
            &&& register_index(operand.name) == Some((operand.name[1] as u32 - '0' as u32) as u16)
        },
{
}

/// An instruction whose operand count is not three has no encoding, in either
/// form, whatever its operands are: the count is the error.
pub proof fn lemma_arity(i: InstructionView)
    requires
        i.operand_list.len() != 3,
    ensures
        spec_add_imm_bits(i) == Err::<u16, _>(
            EncodeError::Arity { found: i.operand_list.len() as usize },
        ),
        spec_add_reg_bits(i) == Err::<u16, _>(
            EncodeError::Arity { found: i.operand_list.len() as usize },
        ),
        spec_encode(i) == Err::<u16, _>(
            EncodeError::Arity { found: i.operand_list.len() as usize },
        ),
{
}

/// The fields of a word in the immediate form: opcode in bits 15 to 12,
/// destination in bits 11 to 9, source in bits 8 to 6, bit 5 set, and the
/// immediate in bits 4 to 0.
pub proof fn lemma_immediate_word_fields(opcode: u16, dest: u16, src: u16, value: u16)
    by (bit_vector)
    requires
        opcode < 16,
        dest < 8,
        src < 8,
        value < 32,
    ensures
        immediate_word(opcode, dest, src, value) >> 12 == opcode,
        (immediate_word(opcode, dest, src, value) >> 9) & 0b111 == dest,
        (immediate_word(opcode, dest, src, value) >> 6) & 0b111 == src,
        (immediate_word(opcode, dest, src, value) >> 5) & 0b1 == 1,
        immediate_word(opcode, dest, src, value) & 0b1_1111 == value,
        immediate_word(opcode, dest, src, value) == opcode * 4096 + dest * 512 + src * 64 + 32
            + value,
{
}

/// The fields of a word in the register form: opcode in bits 15 to 12,
/// destination in bits 11 to 9, source in bits 8 to 6, zero in bits 5 to 3,
/// and the register in bits 2 to 0.
pub proof fn lemma_register_word_fields(opcode: u16, dest: u16, src: u16, reg: u16)
    by (bit_vector)
    requires
        opcode < 16,
        dest < 8,
        src < 8,
        reg < 8,
    ensures
        register_word(opcode, dest, src, reg) >> 12 == opcode,
        (register_word(opcode, dest, src, reg) >> 9) & 0b111 == dest,
        (register_word(opcode, dest, src, reg) >> 6) & 0b111 == src,
        (register_word(opcode, dest, src, reg) >> 3) & 0b111 == 0,
        register_word(opcode, dest, src, reg) & 0b111 == reg,
        register_word(opcode, dest, src, reg) == opcode * 4096 + dest * 512 + src * 64 + reg,
{
}

/// The layout of an encoded instruction: the word holds the opcode in bits 15
/// to 12, the first operand in bits 11 to 9 and the second in bits 8 to 6. In
/// immediate mode bit 5 is set and bits 4 to 0 hold the third operand; in
/// register mode bits 5 to 3 are zero and bits 2 to 0 hold the third operand.
/// Each field holds the full value that its operand resolves to.
pub proof fn lemma_encoded_fields(i: InstructionView)
    requires
        spec_encode(i) is Ok,
    ensures
        i.operand_list.len() == 3,
        spec_encode(i) matches Ok(word) && {
            &&& word >> 12 == i.operation.spec_opcode()
            &&& spec_resolve(i.operand_list[0]) == Some((word >> 9) & 0b111)
            &&& spec_resolve(i.operand_list[1]) == Some((word >> 6) & 0b111)
            &&& i.o_type() == OType::IMM ==> (word >> 5) & 0b1 == 1 && spec_resolve(
                i.operand_list[2],
            ) == Some(word & 0b1_1111)
            &&& i.o_type() == OType::REG ==> (word >> 3) & 0b111 == 0 && spec_resolve(
                i.operand_list[2],
            ) == Some(word & 0b111)
        },
{
    let opcode = i.operation.spec_opcode();
    let dest = spec_resolve(i.operand_list[0]).unwrap();
    let src = spec_resolve(i.operand_list[1]).unwrap();
    let last = spec_resolve(i.operand_list[2]).unwrap();
    if i.o_type() == OType::IMM {
        lemma_immediate_word_fields(opcode, dest, src, last);
    } else {
        lemma_register_word_fields(opcode, dest, src, last);
    }
}

/// The words of a program: one word for each instruction, in order.
pub proof fn lemma_program_words(program: Seq<InstructionView>)
    requires
        spec_encode_program(program) is Ok,
    ensures
        spec_encode_program(program)->Ok_0.len() == program.len(),
        forall|k: int|
            0 <= k < program.len() ==> spec_encode(#[trigger] program[k]) == Ok::<u16, EncodeError>(
                spec_encode_program(program)->Ok_0[k],
            ),
    decreases program.len(),
{
    if program.len() > 0 {
        let front = program.drop_last();
        lemma_program_words(front);
        let words = spec_encode_program(program)->Ok_0;
        let front_words = spec_encode_program(front)->Ok_0;
        assert forall|k: int| 0 <= k < program.len() implies spec_encode(#[trigger] program[k])
            == Ok::<u16, EncodeError>(words[k]) by {
            if k < front.len() {
                assert(front[k] == program[k]);
                assert(words[k] == front_words[k]);
            } else {
                assert(program[k] == program.last());
            }
        }
    }
}

/// The error of a program: that of its first instruction without an encoding.
pub proof fn lemma_program_error(program: Seq<InstructionView>)
    requires
        program.len() <= usize::MAX,
        spec_encode_program(program) is Err,
    ensures
        spec_encode_program(program) matches Err(AsmError::Encode { instruction, error }) && {
            &&& instruction < program.len()
            &&& spec_encode(program[instruction as int]) == Err::<u16, EncodeError>(error)
            &&& forall|k: int| 0 <= k < instruction ==> spec_encode(#[trigger] program[k]) is Ok
        },
    decreases program.len(),
{
    let front = program.drop_last();
    match spec_encode_program(front) {
        Err(e) => {
            lemma_program_error(front);
            if let AsmError::Encode { instruction, error } = e {
                assert forall|k: int| 0 <= k < instruction implies spec_encode(
                    #[trigger] program[k],
                ) is Ok by {
                    assert(front[k] == program[k]);
                }
            }
        },
        Ok(words) => {
            lemma_program_words(front);
            let last = program.len() - 1;
            assert forall|k: int| 0 <= k < last implies spec_encode(#[trigger] program[k]) is Ok by {
                assert(front[k] == program[k]);
            }
        },
    }
}

/// The bytes of a sequence of words: two for each word, the high byte first.
pub proof fn lemma_big_endian(words: Seq<u16>)
    ensures
        big_endian(words).len() == 2 * words.len(),
        forall|k: int|
            0 <= k < words.len() ==> {
                &&& big_endian(words)[2 * k] == #[trigger] words[k] / 256
                &&& big_endian(words)[2 * k + 1] == words[k] % 256
                &&& big_endian(words)[2 * k] * 256 + big_endian(words)[2 * k + 1] == words[k]
            },
{
}

/// A text that assembles gives two bytes for each of its instructions.
pub proof fn lemma_assemble_length(text: Seq<u8>)
    requires
        spec_assemble(text) is Ok,
    ensures
        spec_parse_program(text).0.len() == 0,
        spec_assemble(text)->Ok_0.len() == 2 * spec_parse_program(text).1.len(),
{
    lemma_program_words(spec_parse_program(text).1);
}

/// The empty text is the empty program, and assembles to no bytes.
pub proof fn lemma_empty_text()
    ensures
        spec_parse_program(Seq::empty()) == (Seq::<u8>::empty(), Seq::<InstructionView>::empty()),
        spec_parse_all(Seq::empty()) == Ok::<_, TrailingInput>(Seq::<InstructionView>::empty()),
        spec_assemble(Seq::empty()) == Ok::<_, AsmError>(Seq::<u8>::empty()),
{
    assert(big_endian(Seq::<u16>::empty()) =~= Seq::<u8>::empty());
}

/// Space, tab, line feed, vertical tab, form feed and carriage return.
pub open spec fn is_white_space(b: u8) -> bool {
    b == 0x20 || 0x09 <= b <= 0x0d
}

/// No instruction starts with white space: the mnemonic is missing.
pub proof fn lemma_white_space_starts_no_instruction(s: Seq<u8>)
    requires
        s.len() > 0,
        is_white_space(s[0]),
    ensures
        spec_parse_instruction(s) == Err::<(Seq<u8>, InstructionView), _>(
            SyntaxError { kind: SyntaxErrorKind::UnknownMnemonic, position: 0 },
        ),
        spec_parse_program(s) == (s, Seq::<InstructionView>::empty()),
{
    lemma_mnemonic_starts(s);
}

/// A mnemonic starts with `a`, `l` or `s`.
proof fn lemma_mnemonic_starts(s: Seq<u8>)
    ensures
        spec_parse_op(s) matches Some((rest, operation)) ==> {
            &&& s.len() >= operation.mnemonic().len()
            &&& s[0] == operation.mnemonic()[0]
            &&& rest == s.skip(operation.mnemonic().len() as int)
        },
{
    if let Some((rest, operation)) = spec_parse_op(s) {
        let m = operation.mnemonic();
        assert(m.is_prefix_of(s));
        assert(m[0] == s.subrange(0, m.len() as int)[0]);
    }
}

/// An alphanumeric run that ends before the end of the input is not changed
/// by what is appended to the input.
proof fn lemma_run_extends(y: Seq<u8>, b: Seq<u8>)
    requires
        alnum_run(y) < y.len(),
    ensures
        alnum_run(y + b) == alnum_run(y),
{
    lemma_alnum_run(y);
    let n = alnum_run(y) as int;
    assert forall|k: int| 0 <= k < n implies is_alphanumeric(#[trigger] (y + b)[k]) by {
        assert((y + b)[k] == y[k]);
    }
    assert((y + b)[n] == y[n]);
    lemma_alnum_run_is(y + b, n);
}

/// An operand that ends before the end of the input is not changed by what is
/// appended to the input.
proof fn lemma_operand_extends(y: Seq<u8>, b: Seq<u8>)
    requires
        spec_parse_operand(y) matches Some((rest, _)) && rest.len() > 0,
    ensures
        spec_parse_operand(y) matches Some((rest, operand)) && spec_parse_operand(y + b) == Some(
            (rest + b, operand),
        ),
{
    lemma_alnum_run(y);
    if alnum_run(y) > 0 {
        let n = alnum_run(y) as int;
        lemma_run_extends(y, b);
        assert((y + b).skip(n) =~= y.skip(n) + b);
        assert((y + b).take(n) =~= y.take(n));
    } else {
        let t = y.skip(1);
        let n = alnum_run(t) as int;
        lemma_alnum_run(t);
        assert((y + b)[0] == y[0]);
        assert((y + b).skip(1) =~= t + b);
        lemma_run_extends(t, b);
        assert((t + b).skip(n) =~= t.skip(n) + b);
        assert((t + b).take(n) =~= t.take(n));
    }
}

/// An operand tail that stops at a `;` is not changed by what is appended to
/// the input.
proof fn lemma_tail_extends(y: Seq<u8>, b: Seq<u8>)
    requires
        spec_operand_tail(y).0.len() > 0,
        spec_operand_tail(y).0[0] == SEMICOLON,
    ensures
        spec_operand_tail(y + b) == (spec_operand_tail(y).0 + b, spec_operand_tail(y).1),
    decreases y.len(),
{
    assert((y + b)[0] == y[0]);
    if y[0] == SPACE {
        let t = y.skip(1);
        assert((y + b).skip(1) =~= t + b);
        match spec_parse_operand(t) {
            Some((rest, operand)) => {
                lemma_operand_consumes(t);
                lemma_operand_tail_rest(rest);
                lemma_operand_extends(t, b);
                lemma_tail_extends(rest, b);
            },
            None => {},
        }
    }
}

/// An operand list that stops at a `;` is not changed by what is appended to
/// the input.
proof fn lemma_list_extends(y: Seq<u8>, b: Seq<u8>)
    requires
        spec_operand_list(y).0.len() > 0,
        spec_operand_list(y).0[0] == SEMICOLON,
    ensures
        spec_operand_list(y + b) == (spec_operand_list(y).0 + b, spec_operand_list(y).1),
{
    match spec_parse_operand(y) {
        Some((rest, operand)) => {
            lemma_operand_tail_rest(rest);
            lemma_operand_extends(y, b);
            lemma_tail_extends(rest, b);
        },
        None => {
            assert((y + b)[0] == y[0]);
            assert(alnum_run(y + b) == 0);
        },
    }
}

/// The mnemonic of an input is not changed by what is appended to the input.
proof fn lemma_op_extends(a: Seq<u8>, b: Seq<u8>)
    requires
        spec_parse_op(a) is Some,
    ensures
        spec_parse_op(a) matches Some((rest, operation)) && spec_parse_op(a + b) == Some(
            (rest + b, operation),
        ),
{
    lemma_mnemonic_starts(a);
    let (_, operation) = spec_parse_op(a).unwrap();
    let m = operation.mnemonic();
    let n = m.len() as int;
    assert((a + b)[0] == a[0]);
    assert(m =~= (a + b).subrange(0, n)) by {
        assert(m =~= a.subrange(0, n));
    }
    assert((a + b).skip(n) =~= a.skip(n) + b);
    lemma_mnemonic_starts(a + b);
}

/// An instruction is not changed by what is appended to the input.
pub proof fn lemma_instruction_extends(a: Seq<u8>, b: Seq<u8>)
    requires
        spec_parse_instruction(a) is Ok,
    ensures
        spec_parse_instruction(a) matches Ok((rest, instruction)) && spec_parse_instruction(a + b)
            == Ok::<_, SyntaxError>((rest + b, instruction)),
{
    lemma_op_extends(a, b);
    let (after_op, _) = spec_parse_op(a).unwrap();
    assert((after_op + b)[0] == after_op[0]);
    let list = after_op.skip(1);
    assert((after_op + b).skip(1) =~= list + b);
    lemma_list_extends(list, b);
    let end = spec_operand_list(list).0;
    assert((end + b)[0] == end[0]);
    assert((end + b).skip(1) =~= end.skip(1) + b);
}

/// Concatenation: the program of a text that is a program from its first byte
/// to its last, followed by any other text, is the program of the first
/// followed by the program of the second, and leaves what the second leaves.
pub proof fn lemma_program_concat(a: Seq<u8>, b: Seq<u8>)
    requires
        spec_parse_program(a).0.len() == 0,
    ensures
        spec_parse_program(a + b) == (
            spec_parse_program(b).0,
            spec_parse_program(a).1 + spec_parse_program(b).1,
        ),
    decreases a.len(),
{
    lemma_instruction_consumes(a);
    match spec_parse_instruction(a) {
        Ok((rest, instruction)) => {
            lemma_instruction_extends(a, b);
            lemma_program_concat(rest, b);
            let first = spec_parse_program(rest).1;
            let second = spec_parse_program(b).1;
            assert(seq![instruction] + (first + second) =~= (seq![instruction] + first) + second);
        },
        Err(_) => {
            assert(a + b =~= b);
            assert(Seq::<InstructionView>::empty() + spec_parse_program(b).1
                =~= spec_parse_program(b).1);
        },
    }
}

/// White space behind a program is never skipped: the program ends where the
/// white space begins, and the text as a whole is rejected there, for want of
/// a mnemonic.
pub proof fn lemma_white_space_is_trailing_input(a: Seq<u8>, b: Seq<u8>)
    requires
        spec_parse_program(a).0.len() == 0,
        b.len() > 0,
        is_white_space(b[0]),
        a.len() + b.len() <= usize::MAX,
    ensures
        spec_parse_program(a + b) == (b, spec_parse_program(a).1),
        spec_parse_all(a + b) == Err::<Seq<InstructionView>, _>(
            TrailingInput {
                position: a.len() as usize,
                cause: SyntaxError {
                    kind: SyntaxErrorKind::UnknownMnemonic,
                    position: a.len() as usize,
                },
            },
        ),
        spec_assemble(a + b) is Err,
        spec_assemble(a + b)->Err_0 == AsmError::Syntax(spec_parse_all(a + b)->Err_0),
{
    lemma_program_concat(a, b);
    lemma_white_space_starts_no_instruction(b);
    assert(spec_parse_program(a).1 + Seq::<InstructionView>::empty() =~= spec_parse_program(a).1);
}

/// No mnemonic is the start of another, so the order in which the parser
/// tries them decides nothing.
pub proof fn lemma_mnemonics_prefix_free(p: Ops, q: Ops)
    requires
        p != q,
    ensures
        !p.mnemonic().is_prefix_of(q.mnemonic()),
{
    if p.mnemonic().is_prefix_of(q.mnemonic()) {
        assert(p.mnemonic()[0] == q.mnemonic().subrange(0, p.mnemonic().len() as int)[0]);
    }
}

/// The two forms of an operand exclude each other: an input that starts with
/// the sigil starts with no register operand, so an operand is an immediate
/// exactly when the input starts with the sigil.
pub proof fn lemma_operand_forms_exclusive(s: Seq<u8>)
    ensures
        spec_parse_operand(s) matches Some((_, operand)) ==> (operand.o_type == OType::IMM <==> s[0]
            == SIGIL),
{
}

/// A letter or a digit of ASCII.
pub open spec fn is_alphanumeric_char(c: char) -> bool {
    '0' <= c <= '9' || 'A' <= c <= 'Z' || 'a' <= c <= 'z'
}

/// A name as the parser produces it: one or more letters and digits.
pub open spec fn is_name(name: Seq<char>) -> bool {
    &&& name.len() > 0
    &&& forall|k: int| 0 <= k < name.len() ==> is_alphanumeric_char(#[trigger] name[k])
}

/// The name of a parsed operand is not empty and alphanumeric.
pub proof fn lemma_operand_name(s: Seq<u8>)
    ensures
        spec_parse_operand(s) matches Some((_, operand)) ==> is_name(operand.name),
{
    lemma_alnum_run(s);
    if s.len() > 0 {
        lemma_alnum_run(s.skip(1));
    }
    if let Some((_, operand)) = spec_parse_operand(s) {
        let run = if operand.o_type == OType::REG {
            s.take(alnum_run(s) as int)
        } else {
            s.skip(1).take(alnum_run(s.skip(1)) as int)
        };
        assert forall|k: int| 0 <= k < operand.name.len() implies is_alphanumeric_char(
            #[trigger] operand.name[k],
        ) by {
            assert(is_alphanumeric(run[k]));
            assert(operand.name[k] == run[k] as char);
        }
    }
}

proof fn lemma_tail_names(s: Seq<u8>)
    ensures
        forall|j: int|
            0 <= j < spec_operand_tail(s).1.len() ==> is_name(
                (#[trigger] spec_operand_tail(s).1[j]).name,
            ),
    decreases s.len(),
{
    if s.len() > 0 && s[0] == SPACE {
        if let Some((rest, operand)) = spec_parse_operand(s.skip(1)) {
            lemma_operand_consumes(s.skip(1));
            lemma_operand_name(s.skip(1));
            lemma_tail_names(rest);
        }
    }
}

/// Every operand of a parsed instruction has a name that is not empty and
/// alphanumeric.
pub proof fn lemma_instruction_names(s: Seq<u8>)
    ensures
        spec_parse_instruction(s) matches Ok((_, instruction)) ==> forall|j: int|
            0 <= j < instruction.operand_list.len() ==> is_name(
                (#[trigger] instruction.operand_list[j]).name,
            ),
{
    if let Some((after_op, _)) = spec_parse_op(s) {
        let list = after_op.skip(1);
        if let Some((rest, operand)) = spec_parse_operand(list) {
            lemma_operand_name(list);
            lemma_tail_names(rest);
        }
    }
}

/// Every operand of every instruction of a parsed program has a name that is
/// not empty and alphanumeric.
pub proof fn lemma_program_names(s: Seq<u8>)
    ensures
        forall|i: int, j: int|
            0 <= i < spec_parse_program(s).1.len() && 0 <= j < spec_parse_program(
                s,
            ).1[i].operand_list.len() ==> is_name(
                (#[trigger] spec_parse_program(s).1[i].operand_list[j]).name,
            ),
    decreases s.len(),
{
    if let Ok((rest, instruction)) = spec_parse_instruction(s) {
        lemma_instruction_consumes(s);
        lemma_instruction_names(s);
        lemma_program_names(rest);
    }
}

} // verus!
