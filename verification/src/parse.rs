//! The grammar of the assembly text and its parser.
//!
//! ```text
//! program      := instruction*
//! instruction  := mnemonic " " operand_list ";"
//! operand_list := ( operand ( " " operand )* )?
//! operand      := alphanumeric+ | "$" alphanumeric+
//! mnemonic     := "add" | "ld" | "store"
//! ```
//!
//! The grammar is strict: exactly one space separates the tokens, and nothing
//! may stand between the `;` of one instruction and the mnemonic of the next.
//! The spec functions of this file define what each rule accepts; each parser
//! is proved to compute the spec function of its rule.

use vstd::prelude::*;
use vstd::utf8::{
    decode_utf8, encode_utf8, encode_utf8_decode_utf8, encode_utf8_valid_utf8,
    is_ascii_chars_encode_utf8, valid_utf8,
};
use crate::model::{Instruction, InstructionView, OType, Operand, OperandView, Ops, operands_view};
use crate::primitives::{alphanumeric1, is_alphanumeric, tag, utf8_text};

verus! {

/// The separator between the tokens of an instruction: a space.
pub const SPACE: u8 = 0x20;

/// The terminator of an instruction: `;`.
pub const SEMICOLON: u8 = 0x3b;

/// The sigil that marks an immediate operand: `$`.
pub const SIGIL: u8 = 0x24;

impl Ops {
    /// The bytes of the mnemonic that names the operation in the source text.
    pub open spec fn mnemonic(self) -> Seq<u8> {
        match self {
            Ops::ADD => seq!['a' as u8, 'd' as u8, 'd' as u8],
            Ops::LD => seq!['l' as u8, 'd' as u8],
            Ops::STORE => seq!['s' as u8, 't' as u8, 'o' as u8, 'r' as u8, 'e' as u8],
        }
    }
}

/// The mnemonic rule: the first of `add`, `ld`, `store` that the input starts
/// with, and the input behind it.
pub open spec fn spec_parse_op(s: Seq<u8>) -> Option<(Seq<u8>, Ops)> {
    if Ops::ADD.mnemonic().is_prefix_of(s) {
        Some((s.skip(Ops::ADD.mnemonic().len() as int), Ops::ADD))
    } else if Ops::LD.mnemonic().is_prefix_of(s) {
        Some((s.skip(Ops::LD.mnemonic().len() as int), Ops::LD))
    } else if Ops::STORE.mnemonic().is_prefix_of(s) {
        Some((s.skip(Ops::STORE.mnemonic().len() as int), Ops::STORE))
    } else {
        None
    }
}

/// Recognises one mnemonic at the start of `i`.
pub fn parse_op<'a>(i: &'a [u8]) -> (r: Option<(&'a [u8], Ops)>)
    ensures
        match r {
            Some((rest, op)) => spec_parse_op(i@) == Some((rest@, op)),
            None => spec_parse_op(i@) is None,
        },
{
    let add: [u8; 3] = ['a' as u8, 'd' as u8, 'd' as u8];
    let ld: [u8; 2] = ['l' as u8, 'd' as u8];
    let store: [u8; 5] = ['s' as u8, 't' as u8, 'o' as u8, 'r' as u8, 'e' as u8];
    if let Some(rest) = tag(add.as_slice(), i) {
        Some((rest, Ops::ADD))
    } else if let Some(rest) = tag(ld.as_slice(), i) {
        Some((rest, Ops::LD))
    } else if let Some(rest) = tag(store.as_slice(), i) {
        Some((rest, Ops::STORE))
    } else {
        None
    }
}

/// The length of the longest prefix of `s` that is made of alphanumeric bytes.
pub open spec fn alnum_run(s: Seq<u8>) -> nat
    decreases s.len(),
{
    if s.len() > 0 && is_alphanumeric(s[0]) {
        1 + alnum_run(s.skip(1))
    } else {
        0
    }
}

/// The text that a sequence of ASCII bytes spells.
pub open spec fn ascii_text(bytes: Seq<u8>) -> Seq<char> {
    bytes.map_values(|b: u8| b as char)
}

/// The operand rule. A non-empty alphanumeric run is a register operand; failing
/// that, a `$` followed by a non-empty alphanumeric run is an immediate operand,
/// named by the run alone. The result pairs the operand with the input behind it.
pub open spec fn spec_parse_operand(s: Seq<u8>) -> Option<(Seq<u8>, OperandView)> {
    if alnum_run(s) > 0 {
        let n = alnum_run(s) as int;
        Some((s.skip(n), OperandView { name: ascii_text(s.take(n)), o_type: OType::REG }))
    } else if s.len() > 0 && s[0] == SIGIL && alnum_run(s.skip(1)) > 0 {
        let n = alnum_run(s.skip(1)) as int;
        Some(
            (
                s.skip(1).skip(n),
                OperandView { name: ascii_text(s.skip(1).take(n)), o_type: OType::IMM },
            ),
        )
    } else {
        None
    }
}

/// `alnum_run` stays within the input, covers alphanumeric bytes only, and
/// stops at the end of the input or before a byte that is not alphanumeric.
pub proof fn lemma_alnum_run(s: Seq<u8>)
    ensures
        alnum_run(s) <= s.len(),
        forall|k: int| 0 <= k < alnum_run(s) ==> is_alphanumeric(#[trigger] s[k]),
        alnum_run(s) < s.len() ==> !is_alphanumeric(s[alnum_run(s) as int]),
    decreases s.len(),
{
    if s.len() > 0 && is_alphanumeric(s[0]) {
        let t = s.skip(1);
        lemma_alnum_run(t);
        assert forall|k: int| 0 <= k < alnum_run(s) implies is_alphanumeric(#[trigger] s[k]) by {
            if k > 0 {
                assert(s[k] == t[k - 1]);
            }
        }
    }
}

/// A prefix of alphanumeric bytes that ends the input, or that a byte which is
/// not alphanumeric follows, is the longest one.
pub proof fn lemma_alnum_run_is(s: Seq<u8>, n: int)
    requires
        0 <= n <= s.len(),
        forall|k: int| 0 <= k < n ==> is_alphanumeric(#[trigger] s[k]),
        n < s.len() ==> !is_alphanumeric(s[n]),
    ensures
        alnum_run(s) == n,
    decreases n,
{
    if n > 0 {
        lemma_alnum_run_is(s.skip(1), n - 1);
    }
}

/// Alphanumeric bytes are valid UTF-8, and decode to the text they spell.
proof fn lemma_alnum_is_utf8(bytes: Seq<u8>)
    requires
        forall|k: int| 0 <= k < bytes.len() ==> is_alphanumeric(#[trigger] bytes[k]),
    ensures
        valid_utf8(bytes),
        decode_utf8(bytes) == ascii_text(bytes),
{
    let chars = ascii_text(bytes);
    is_ascii_chars_encode_utf8(chars);
    assert(encode_utf8(chars) =~= bytes) by {
        assert forall|k: int| 0 <= k < bytes.len() implies encode_utf8(chars)[k] == bytes[k] by {
            assert(is_alphanumeric(bytes[k]));
            assert(chars[k] as u8 == encode_utf8(chars)[k]);
        }
    }
    encode_utf8_valid_utf8(chars);
    encode_utf8_decode_utf8(chars);
}

/// Owns the text of an alphanumeric run.
fn run_name(run: &[u8]) -> (name: String)
    requires
        forall|k: int| 0 <= k < run@.len() ==> is_alphanumeric(#[trigger] run@[k]),
    ensures
        name@ == ascii_text(run@),
{
    proof {
        lemma_alnum_is_utf8(run@);
    }
    utf8_text(run).unwrap().to_owned()
}

/// Recognises one operand at the start of `i`. On failure nothing is consumed.
pub fn parse_operand<'a>(i: &'a [u8]) -> (r: Option<(&'a [u8], Operand)>)
    ensures
        match r {
            Some((rest, operand)) => spec_parse_operand(i@) == Some((rest@, operand@)),
            None => spec_parse_operand(i@) is None,
        },
{
    if let Some((rest, run)) = alphanumeric1(i) {
        proof {
            lemma_alnum_run_is(i@, run@.len() as int);
            assert(i@.take(run@.len() as int) =~= run@);
        }
        return Some((rest, Operand { name: run_name(run), o_type: OType::REG }));
    }
    let sigil: [u8; 1] = [SIGIL];
    let after_sigil = match tag(sigil.as_slice(), i) {
        Some(rest) => rest,
        None => {
            return None;
        },
    };
    match alphanumeric1(after_sigil) {
        Some((rest, run)) => {
            proof {
                lemma_alnum_run_is(after_sigil@, run@.len() as int);
                assert(after_sigil@.take(run@.len() as int) =~= run@);
            }
            Some((rest, Operand { name: run_name(run), o_type: OType::IMM }))
        },
        None => None,
    }
}

/// A one-byte sequence is a prefix of exactly the inputs that start with that byte.
proof fn lemma_one_byte_prefix(b: u8, s: Seq<u8>)
    ensures
        seq![b].is_prefix_of(s) <==> (s.len() > 0 && s[0] == b),
{
    if seq![b].is_prefix_of(s) {
        assert(seq![b][0] == s.subrange(0, 1)[0]);
    }
}

/// An operand is never empty: recognising one consumes at least one byte, what
/// is left is the end of the input, and the name is the alphanumeric run.
pub proof fn lemma_operand_consumes(s: Seq<u8>)
    ensures
        spec_parse_operand(s) matches Some((rest, operand)) ==> {
            &&& rest.len() < s.len()
            &&& rest == s.skip(s.len() - rest.len())
            &&& operand.name.len() > 0
            &&& operand.name.len() + (if operand.o_type == OType::IMM { 1int } else { 0int })
                == s.len() - rest.len()
        },
{
    if s.len() > 0 {
        lemma_alnum_run(s.skip(1));
    }
}

/// The rest of an operand list, after its first operand: as many repetitions
/// of a space and an operand as the input holds. A space that no operand
/// follows is not consumed.
pub open spec fn spec_operand_tail(s: Seq<u8>) -> (Seq<u8>, Seq<OperandView>)
    decreases s.len(),
    via operand_tail_terminates
{
    if s.len() > 0 && s[0] == SPACE {
        match spec_parse_operand(s.skip(1)) {
            Some((rest, operand)) => {
                let (end, more) = spec_operand_tail(rest);
                (end, seq![operand] + more)
            },
            None => (s, Seq::empty()),
        }
    } else {
        (s, Seq::empty())
    }
}

#[via_fn]
proof fn operand_tail_terminates(s: Seq<u8>) {
    if s.len() > 0 {
        lemma_operand_consumes(s.skip(1));
    }
}

/// The operand list rule: nothing, or one operand and its tail.
pub open spec fn spec_operand_list(s: Seq<u8>) -> (Seq<u8>, Seq<OperandView>) {
    match spec_parse_operand(s) {
        Some((rest, operand)) => {
            let (end, more) = spec_operand_tail(rest);
            (end, seq![operand] + more)
        },
        None => (s, Seq::empty()),
    }
}

/// What is left behind an operand tail is the end of the input.
pub proof fn lemma_operand_tail_rest(s: Seq<u8>)
    ensures
        spec_operand_tail(s).0.len() <= s.len(),
        spec_operand_tail(s).0 == s.skip(s.len() - spec_operand_tail(s).0.len()),
    decreases s.len(),
{
    if s.len() > 0 && s[0] == SPACE {
        lemma_operand_consumes(s.skip(1));
        if let Some((rest, _)) = spec_parse_operand(s.skip(1)) {
            lemma_operand_tail_rest(rest);
        }
    }
}

/// What is left behind an operand list is the end of the input.
pub proof fn lemma_operand_list_rest(s: Seq<u8>)
    ensures
        spec_operand_list(s).0.len() <= s.len(),
        spec_operand_list(s).0 == s.skip(s.len() - spec_operand_list(s).0.len()),
{
    lemma_operand_consumes(s);
    if let Some((rest, _)) = spec_parse_operand(s) {
        lemma_operand_tail_rest(rest);
    }
}

/// Recognises a possibly empty list of operands separated by single spaces.
/// The call always succeeds; on an input that starts with no operand the list
/// is empty and nothing is consumed.
pub fn parse_operand_list<'a>(i: &'a [u8]) -> (r: (&'a [u8], Vec<Operand>))
    ensures
        (r.0@, operands_view(r.1@)) == spec_operand_list(i@),
{
    let mut operands: Vec<Operand> = Vec::new();
    let mut rest = i;
    match parse_operand(i) {
        Some((behind, operand)) => {
            operands.push(operand);
            rest = behind;
        },
        None => {
            return (i, operands);
        },
    }
    let separator: [u8; 1] = [SPACE];
    loop
        invariant
            separator@ == seq![SPACE],
            spec_operand_list(i@).0 == spec_operand_tail(rest@).0,
            spec_operand_list(i@).1 == operands_view(operands@) + spec_operand_tail(rest@).1,
        ensures
            spec_operand_list(i@) == (rest@, operands_view(operands@)),
        decreases rest@.len(),
    {
        proof {
            lemma_one_byte_prefix(SPACE, rest@);
        }
        let after_space = match tag(separator.as_slice(), rest) {
            Some(behind) => behind,
            None => {
                break ;
            },
        };
        proof {
            lemma_operand_consumes(after_space@);
        }
        match parse_operand(after_space) {
            Some((behind, operand)) => {
                operands.push(operand);
                rest = behind;
            },
            None => {
                break ;
            },
        }
    }
    (rest, operands)
}

/// Why an input is not an instruction.
#[derive(Debug, Clone, Copy, PartialEq, Eq, Structural)]
pub enum SyntaxErrorKind {
    /// The input does not start with `add`, `ld` or `store`.
    UnknownMnemonic,
    /// No space follows the mnemonic.
    MissingSpace,
    /// The operand list stops at a space or a `$` that no operand follows.
    MalformedOperand,
    /// The operand list stops at the end of the input, or at a byte other
    /// than `;`, a space or `$`.
    MissingSemicolon,
}

/// A syntax error and the offset of the byte at which the parser gave up,
/// counted from the start of the input it was given.
#[derive(Debug, Clone, Copy, PartialEq, Eq, Structural)]
pub struct SyntaxError {
    pub kind: SyntaxErrorKind,
    pub position: usize,
}

/// The instruction rule: a mnemonic, one space, an operand list and `;`. The
/// result pairs the instruction with the input behind the `;`, or tells why
/// and where the input stops being an instruction.
pub open spec fn spec_parse_instruction(s: Seq<u8>) -> Result<
    (Seq<u8>, InstructionView),
    SyntaxError,
> {
    match spec_parse_op(s) {
        None => Err(SyntaxError { kind: SyntaxErrorKind::UnknownMnemonic, position: 0 }),
        Some((after_op, operation)) => {
            if !(after_op.len() > 0 && after_op[0] == SPACE) {
                Err(
                    SyntaxError {
                        kind: SyntaxErrorKind::MissingSpace,
                        position: (s.len() - after_op.len()) as usize,
                    },
                )
            } else {
                let (end, operand_list) = spec_operand_list(after_op.skip(1));
                if end.len() > 0 && end[0] == SEMICOLON {
                    Ok((end.skip(1), InstructionView { operation, operand_list }))
                } else {
                    Err(
                        SyntaxError {
                            kind: if end.len() > 0 && (end[0] == SPACE || end[0] == SIGIL) {
                                SyntaxErrorKind::MalformedOperand
                            } else {
                                SyntaxErrorKind::MissingSemicolon
                            },
                            position: (s.len() - end.len()) as usize,
                        },
                    )
                }
            }
        },
    }
}

/// An instruction takes at least four bytes, what is left behind it is the end
/// of the input, and an error lies within the input.
pub proof fn lemma_instruction_consumes(s: Seq<u8>)
    ensures
        spec_parse_instruction(s) matches Ok((rest, _)) ==> {
            &&& rest.len() + 4 <= s.len()
            &&& rest == s.skip(s.len() - rest.len())
        },
        spec_parse_instruction(s) matches Err(e) ==> s.len() <= usize::MAX ==> e.position
            <= s.len(),
{
    if let Some((after_op, _)) = spec_parse_op(s) {
        lemma_operand_list_rest(after_op.skip(1));
    }
}

/// Recognises one instruction at the start of `i`.
pub fn parse_instruction<'a>(i: &'a [u8]) -> (r: Result<(&'a [u8], Instruction), SyntaxError>)
    ensures
        match r {
            Ok((rest, instruction)) => spec_parse_instruction(i@) == Ok::<_, SyntaxError>(
                (rest@, instruction@),
            ),
            Err(e) => spec_parse_instruction(i@) == Err::<(Seq<u8>, InstructionView), _>(e),
        },
{
    let (after_op, operation) = match parse_op(i) {
        Some(found) => found,
        None => {
            return Err(SyntaxError { kind: SyntaxErrorKind::UnknownMnemonic, position: 0 });
        },
    };
    let separator: [u8; 1] = [SPACE];
    let list = match tag(separator.as_slice(), after_op) {
        Some(behind) => behind,
        None => {
            return Err(
                SyntaxError {
                    kind: SyntaxErrorKind::MissingSpace,
                    position: i.len() - after_op.len(),
                },
            );
        },
    };
    let (end, operands) = parse_operand_list(list);
    proof {
        lemma_operand_list_rest(list@);
    }
    let terminator: [u8; 1] = [SEMICOLON];
    match tag(terminator.as_slice(), end) {
        Some(rest) => Ok((rest, Instruction::new(operation, operands))),
        None => {
            let kind = if end.len() > 0 && (end[0] == SPACE || end[0] == SIGIL) {
                SyntaxErrorKind::MalformedOperand
            } else {
                SyntaxErrorKind::MissingSemicolon
            };
            Err(SyntaxError { kind, position: i.len() - end.len() })
        },
    }
}

/// The program rule: as many instructions as the input holds, one directly
/// behind the other. The result pairs them with the input that is left, which
/// is empty or not the start of an instruction.
pub open spec fn spec_parse_program(s: Seq<u8>) -> (Seq<u8>, Seq<InstructionView>)
    decreases s.len(),
    via program_terminates
{
    match spec_parse_instruction(s) {
        Ok((rest, instruction)) => {
            let (end, more) = spec_parse_program(rest);
            (end, seq![instruction] + more)
        },
        Err(_) => (s, Seq::empty()),
    }
}

#[via_fn]
proof fn program_terminates(s: Seq<u8>) {
    lemma_instruction_consumes(s);
}

/// The values of a sequence of instructions.
pub open spec fn instructions_view(program: Seq<Instruction>) -> Seq<InstructionView> {
    program.map_values(|instruction: Instruction| instruction@)
}

/// What is left behind a program is the end of the input, and no instruction
/// starts there.
pub proof fn lemma_program_rest(s: Seq<u8>)
    ensures
        spec_parse_program(s).0.len() <= s.len(),
        spec_parse_program(s).0 == s.skip(s.len() - spec_parse_program(s).0.len()),
        spec_parse_instruction(spec_parse_program(s).0) is Err,
    decreases s.len(),
{
    lemma_instruction_consumes(s);
    if let Ok((rest, _)) = spec_parse_instruction(s) {
        lemma_program_rest(rest);
    }
}

/// Recognises instructions until the input is no instruction any more, and
/// returns what is left, the instructions, and the reason why what is left is
/// no instruction.
fn parse_until_error<'a>(i: &'a [u8]) -> (r: (&'a [u8], Vec<Instruction>, SyntaxError))
    ensures
        (r.0@, instructions_view(r.1@)) == spec_parse_program(i@),
        spec_parse_instruction(r.0@) == Err::<(Seq<u8>, InstructionView), _>(r.2),
{
    let mut program: Vec<Instruction> = Vec::new();
    let mut rest = i;
    loop
        invariant
            spec_parse_program(i@).0 == spec_parse_program(rest@).0,
            spec_parse_program(i@).1 == instructions_view(program@) + spec_parse_program(rest@).1,
        decreases rest@.len(),
    {
        proof {
            lemma_instruction_consumes(rest@);
        }
        match parse_instruction(rest) {
            Ok((behind, instruction)) => {
                program.push(instruction);
                rest = behind;
            },
            Err(e) => {
                return (rest, program, e);
            },
        }
    }
}

/// Recognises a program at the start of `i` and returns it with the input that
/// is left. The call always succeeds. Input is left exactly when it is not the
/// start of an instruction; in particular, white space between two
/// instructions ends the program.
pub fn parse_program<'a>(i: &'a [u8]) -> (r: (&'a [u8], Vec<Instruction>))
    ensures
        (r.0@, instructions_view(r.1@)) == spec_parse_program(i@),
{
    let (rest, program, _) = parse_until_error(i);
    (rest, program)
}

/// Input that a program leaves unparsed: the offset at which the program
/// ends, and the reason why no instruction starts there, with its offset.
/// Both offsets count from the start of the whole input.
#[derive(Debug, Clone, Copy, PartialEq, Eq, Structural)]
pub struct TrailingInput {
    pub position: usize,
    pub cause: SyntaxError,
}

/// The program that a whole input spells, or the input that its program
/// leaves unparsed.
pub open spec fn spec_parse_all(s: Seq<u8>) -> Result<Seq<InstructionView>, TrailingInput> {
    let (rest, program) = spec_parse_program(s);
    if rest.len() == 0 {
        Ok(program)
    } else {
        let position = s.len() - rest.len();
        let stop = spec_parse_instruction(rest)->Err_0;
        Err(
            TrailingInput {
                position: position as usize,
                cause: SyntaxError {
                    kind: stop.kind,
                    position: (position + stop.position) as usize,
                },
            },
        )
    }
}

/// Parses an input that must be a program from its first byte to its last.
/// Input that is left over is an error, told apart from a clean end.
pub fn parse_all(i: &[u8]) -> (r: Result<Vec<Instruction>, TrailingInput>)
    ensures
        match r {
            Ok(program) => spec_parse_all(i@) == Ok::<_, TrailingInput>(instructions_view(program@)),
            Err(e) => spec_parse_all(i@) == Err::<Seq<InstructionView>, _>(e),
        },
{
    let (rest, program, stop) = parse_until_error(i);
    proof {
        lemma_program_rest(i@);
        lemma_instruction_consumes(rest@);
    }
    if rest.len() == 0 {
        Ok(program)
    } else {
        let position = i.len() - rest.len();
        Err(
            TrailingInput {
                position,
                cause: SyntaxError { kind: stop.kind, position: position + stop.position },
            },
        )
    }
}

} // verus!
