//! From a program to its words and bytes, and the whole way from text to bytes.

use vstd::prelude::*;
use crate::encode::{EncodeError, encode, spec_encode};
use crate::model::{Instruction, InstructionView};
use crate::parse::{TrailingInput, instructions_view, parse_all, spec_parse_all};

verus! {

/// Why a text has no binary form.
#[derive(Debug, Clone, Copy, PartialEq, Eq, Structural)]
pub enum AsmError {
    /// The text is a program only up to some offset.
    Syntax(TrailingInput),
    /// The instruction at `instruction`, counted from zero, has no encoding.
    Encode { instruction: usize, error: EncodeError },
}

/// The words of a program, in order. If some instruction has no encoding, the
/// first such instruction is reported and no word is produced.
pub open spec fn spec_encode_program(program: Seq<InstructionView>) -> Result<Seq<u16>, AsmError>
    decreases program.len(),
{
    if program.len() == 0 {
        Ok(Seq::empty())
    } else {
        match spec_encode_program(program.drop_last()) {
            Err(e) => Err(e),
            Ok(words) => match spec_encode(program.last()) {
                Ok(word) => Ok(words.push(word)),
                Err(error) => Err(
                    AsmError::Encode { instruction: (program.len() - 1) as usize, error },
                ),
            },
        }
    }
}

/// Encodes every instruction of a program.
pub fn encode_program(program: &[Instruction]) -> (r: Result<Vec<u16>, AsmError>)
    ensures
        match r {
            Ok(words) => spec_encode_program(instructions_view(program@)) == Ok::<_, AsmError>(
                words@,
            ),
            Err(e) => spec_encode_program(instructions_view(program@)) == Err::<Seq<u16>, _>(e),
        },
{
    let ghost all = instructions_view(program@);
    let mut words: Vec<u16> = Vec::new();
    let mut k: usize = 0;
    while k < program.len()
        invariant
            k <= program.len(),
            all == instructions_view(program@),
            spec_encode_program(all.take(k as int)) == Ok::<_, AsmError>(words@),
        decreases program.len() - k,
    {
        assert(all.take(k + 1).drop_last() =~= all.take(k as int));
        match encode(&program[k]) {
            Ok(word) => {
                words.push(word);
            },
            Err(error) => {
                proof {
                    lemma_error_persists(all, k + 1);
                }
                return Err(AsmError::Encode { instruction: k, error });
            },
        }
        k += 1;
    }
    assert(all.take(k as int) =~= all);
    Ok(words)
}

/// Once a prefix of a program has no encoding, the program has none, for the same reason.
proof fn lemma_error_persists(program: Seq<InstructionView>, k: int)
    requires
        0 <= k <= program.len(),
        spec_encode_program(program.take(k)) is Err,
    ensures
        spec_encode_program(program) == spec_encode_program(program.take(k)),
    decreases program.len() - k,
{
    if k < program.len() {
        assert(program.take(k + 1).drop_last() =~= program.take(k));
        lemma_error_persists(program, k + 1);
    } else {
        assert(program.take(k) =~= program);
    }
}

/// The bytes of a sequence of words: two per word, the high byte first.
pub open spec fn big_endian(words: Seq<u16>) -> Seq<u8> {
    Seq::new(
        2 * words.len(),
        |k: int|
            if k % 2 == 0 {
                (words[k / 2] / 256) as u8
            } else {
                (words[k / 2] % 256) as u8
            },
    )
}

/// Serialises words in big-endian order, with no header and no padding.
pub fn to_bytes(words: &[u16]) -> (bytes: Vec<u8>)
    ensures
        bytes@ == big_endian(words@),
{
    let mut bytes: Vec<u8> = Vec::new();
    let mut k: usize = 0;
    while k < words.len()
        invariant
            k <= words.len(),
            bytes@ == big_endian(words@.take(k as int)),
        decreases words.len() - k,
    {
        let word = words[k];
        bytes.push((word / 256) as u8);
        bytes.push((word % 256) as u8);
        k += 1;
    }
    bytes
}

/// The binary form of a text: the bytes of the words of the program that the
/// whole text spells.
pub open spec fn spec_assemble(text: Seq<u8>) -> Result<Seq<u8>, AsmError> {
    match spec_parse_all(text) {
        Err(trailing) => Err(AsmError::Syntax(trailing)),
        Ok(program) => match spec_encode_program(program) {
            Err(e) => Err(e),
            Ok(words) => Ok(big_endian(words)),
        },
    }
}

/// Assembles a text into its binary form. Either every instruction of
/// the text is encoded, or the text is rejected and no byte is produced.
pub fn assemble(text: &[u8]) -> (r: Result<Vec<u8>, AsmError>)
    ensures
        match r {
            Ok(bytes) => spec_assemble(text@) == Ok::<_, AsmError>(bytes@),
            Err(e) => spec_assemble(text@) == Err::<Seq<u8>, _>(e),
        },
{
    let program = match parse_all(text) {
        Ok(program) => program,
        Err(trailing) => {
            return Err(AsmError::Syntax(trailing));
        },
    };
    match encode_program(program.as_slice()) {
        Ok(words) => Ok(to_bytes(words.as_slice())),
        Err(e) => Err(e),
    }
}

} // verus!
