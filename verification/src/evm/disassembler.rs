//! EVM bytecode disassembler, for debugging and test output (not for execution).

use vstd::prelude::*;
use vstd::string::*;
use crate::evm::trace::{opcode_mnemonic, opcode_name};
use crate::text::{byte_hex, hex_text, pad_left, push_byte_hex, push_hex_padded};

verus! {

/// A single disassembled instruction.
#[derive(Debug, Clone, PartialEq, Eq)]
pub struct Instruction {
    /// Program counter.
    pub pc: usize,
    /// Opcode byte.
    pub opcode: u8,
    /// Human-readable opcode name.
    pub name: String,
    /// Immediate data (for PUSH opcodes).
    pub immediate: Vec<u8>,
}

impl View for Instruction {
    type V = (usize, u8, Seq<char>, Seq<u8>);

    open spec fn view(&self) -> (usize, u8, Seq<char>, Seq<u8>) {
        (self.pc, self.opcode, self.name@, self.immediate@)
    }
}

/// Whether the disassembler knows a name for `opcode`.
pub open spec fn known_opcode(opcode: u8) -> bool {
    ||| opcode <= 0x0b
    ||| 0x10 <= opcode <= 0x1d
    ||| opcode == 0x20
    ||| 0x30 <= opcode <= 0x4a
    ||| 0x50 <= opcode <= 0xa4
    ||| 0xf0 <= opcode <= 0xf5
    ||| opcode == 0xfa
    ||| opcode >= 0xfd
}

/// The disassembler's name of `opcode`: the mnemonic (0x44 under its older name
/// DIFFICULTY), or "UNKNOWN_0x" and the byte in hexadecimal.
pub open spec fn instruction_name(opcode: u8) -> Seq<char> {
    if opcode == 0x44 {
        "DIFFICULTY"@
    } else if known_opcode(opcode) {
        opcode_mnemonic(opcode)
    } else {
        "UNKNOWN_0x"@ + byte_hex(opcode)
    }
}

/// The number of immediate bytes that follow `opcode` (PUSH1 to PUSH32).
pub open spec fn immediate_len(opcode: u8) -> nat {
    if 0x60 <= opcode <= 0x7f {
        (opcode - 0x5f) as nat
    } else {
        0
    }
}

/// Where the instruction after the one at `pc` starts: past its immediate data,
/// cut off at the end of the code.
pub open spec fn next_pc(code: Seq<u8>, pc: nat) -> nat {
    let end = pc + 1 + immediate_len(code[pc as int]);
    if end < code.len() {
        end
    } else {
        code.len()
    }
}

/// The instruction at `pc`, as (pc, opcode, name, immediate data).
pub open spec fn instruction_at(code: Seq<u8>, pc: nat) -> (usize, u8, Seq<char>, Seq<u8>) {
    let opcode = code[pc as int];
    (
        pc as usize,
        opcode,
        instruction_name(opcode),
        code.subrange((pc + 1) as int, next_pc(code, pc) as int),
    )
}

/// The instructions of `code` from `pc` to its end.
pub open spec fn disassembly_from(code: Seq<u8>, pc: nat) -> Seq<(usize, u8, Seq<char>, Seq<u8>)>
    decreases code.len() - pc,
{
    if pc >= code.len() {
        Seq::empty()
    } else {
        seq![instruction_at(code, pc)] + disassembly_from(code, next_pc(code, pc))
    }
}

/// The instructions of `code`, in order.
pub open spec fn disassembly(code: Seq<u8>) -> Seq<(usize, u8, Seq<char>, Seq<u8>)> {
    disassembly_from(code, 0)
}

/// From `pc` on, instructions start at strictly increasing positions, none before
/// `pc` and all within the code.
proof fn lemma_disassembly_from_ordered(code: Seq<u8>, pc: nat)
    requires
        code.len() <= usize::MAX,
    ensures
        ({
            let d = disassembly_from(code, pc);
            &&& forall|i: int| 0 <= i < d.len() ==> pc <= #[trigger] d[i].0 < code.len()
            &&& forall|i: int, j: int| 0 <= i < j < d.len() ==> #[trigger] d[i].0 < #[trigger] d[j].0
        }),
    decreases code.len() - pc,
{
    if pc < code.len() {
        let next = next_pc(code, pc);
        lemma_disassembly_from_ordered(code, next);
        let d = disassembly_from(code, pc);
        let rest = disassembly_from(code, next);
        assert(d == seq![instruction_at(code, pc)] + rest);
        assert forall|i: int| 0 <= i < d.len() implies pc <= #[trigger] d[i].0 < code.len() by {
            if i > 0 {
                assert(d[i] == rest[i - 1]);
            }
        }
        assert forall|i: int, j: int| 0 <= i < j < d.len() implies #[trigger] d[i].0
            < #[trigger] d[j].0 by {
            assert(d[j] == rest[j - 1]);
            if i > 0 {
                assert(d[i] == rest[i - 1]);
            }
        }
    }
}

/// Instructions are listed in the order of their positions: their program counters
/// strictly increase and all lie within the code.
pub proof fn lemma_disassembly_ordered(code: Seq<u8>)
    requires
        code.len() <= usize::MAX,
    ensures
        forall|i: int| 0 <= i < disassembly(code).len() ==> #[trigger] disassembly(code)[i].0 < code.len(),
        forall|i: int, j: int|
            0 <= i < j < disassembly(code).len() ==> #[trigger] disassembly(code)[i].0
                < #[trigger] disassembly(code)[j].0,
{
    lemma_disassembly_from_ordered(code, 0);
}

fn is_known_opcode(opcode: u8) -> (r: bool)
    ensures
        r == known_opcode(opcode),
{
    opcode <= 0x0b || (0x10 <= opcode && opcode <= 0x1d) || opcode == 0x20 || (0x30 <= opcode
        && opcode <= 0x4a) || (0x50 <= opcode && opcode <= 0xa4) || (0xf0 <= opcode && opcode
        <= 0xf5) || opcode == 0xfa || opcode >= 0xfd
}

fn mnemonic(opcode: u8) -> (r: String)
    ensures
        r@ == instruction_name(opcode),
{
    if opcode == 0x44 {
        String::from_str("DIFFICULTY")
    } else if is_known_opcode(opcode) {
        String::from_str(opcode_name(opcode))
    } else {
        let mut s = String::from_str("UNKNOWN_0x");
        push_byte_hex(&mut s, opcode);
        s
    }
}

/// Disassembles EVM bytecode into its instructions, in order. A PUSH whose data
/// runs past the end of the code takes what is left.
pub fn disassemble(bytecode: &[u8]) -> (r: Vec<Instruction>)
    ensures
        r@.len() == disassembly(bytecode@).len(),
        forall|i: int| 0 <= i < r@.len() ==> #[trigger] r@[i]@ == disassembly(bytecode@)[i],
{
    let mut pc: usize = 0;
    let mut output: Vec<Instruction> = Vec::new();
    let ghost code = bytecode@;
    while pc < bytecode.len()
        invariant
            code == bytecode@,
            pc <= code.len(),
            output@.len() + disassembly_from(code, pc as nat).len() == disassembly(code).len(),
            forall|i: int| 0 <= i < output@.len() ==> #[trigger] output@[i]@ == disassembly(code)[i],
            forall|i: int|
                0 <= i < disassembly_from(code, pc as nat).len() ==> disassembly(code)[output@.len()
                    + i] == #[trigger] disassembly_from(code, pc as nat)[i],
        decreases bytecode.len() - pc,
    {
        let opcode = bytecode[pc];
        let name = mnemonic(opcode);
        let start_pc = pc;
        let mut immediate: Vec<u8> = Vec::new();
        if 0x60 <= opcode && opcode <= 0x7f {
            let len = (opcode - 0x5f) as usize;
            let data_start = pc + 1;
            let data_end = if len < bytecode.len() - pc - 1 {
                pc + 1 + len
            } else {
                bytecode.len()
            };
            let mut j = data_start;
            while j < data_end
                invariant
                    data_start <= j <= data_end <= bytecode@.len(),
                    immediate@ == bytecode@.subrange(data_start as int, j as int),
                decreases data_end - j,
            {
                immediate.push(bytecode[j]);
                j = j + 1;
                proof {
                    assert(immediate@ =~= bytecode@.subrange(data_start as int, j as int));
                }
            }
            pc = data_end;
        } else {
            pc = pc + 1;
        }
        proof {
            assert(pc == next_pc(code, start_pc as nat));
            assert(immediate@ =~= code.subrange(start_pc + 1, pc as int));
            let rest = disassembly_from(code, start_pc as nat);
            assert(rest == seq![instruction_at(code, start_pc as nat)] + disassembly_from(code, pc as nat));
            assert(rest[0] == instruction_at(code, start_pc as nat));
            assert forall|i: int| 0 <= i < disassembly_from(code, pc as nat).len() implies disassembly(
                code,
            )[output@.len() + 1 + i] == #[trigger] disassembly_from(code, pc as nat)[i] by {
                assert(rest[1 + i] == disassembly_from(code, pc as nat)[i]);
            }
        }
        output.push(Instruction { pc: start_pc, opcode, name, immediate });
    }
    output
}

/// The text of one instruction: "pppp: NAME (0xoo)", and " 0x" with the
/// immediate data in hexadecimal where there is any.
pub open spec fn instruction_text(inst: (usize, u8, Seq<char>, Seq<u8>)) -> Seq<char> {
    let head = pad_left(hex_text(inst.0 as nat), 4, '0') + ": "@ + inst.2 + " (0x"@ + byte_hex(
        inst.1,
    ) + ")"@;
    if inst.3.len() == 0 {
        head
    } else {
        head + " 0x"@ + bytes_hex(inst.3)
    }
}

/// Each byte of `bytes` as two lower-case hexadecimal digits.
pub open spec fn bytes_hex(bytes: Seq<u8>) -> Seq<char>
    decreases bytes.len(),
{
    if bytes.len() == 0 {
        Seq::empty()
    } else {
        bytes_hex(bytes.drop_last()) + byte_hex(bytes.last())
    }
}

fn format_instruction(inst: &Instruction) -> (r: String)
    ensures
        r@ == instruction_text(inst@),
{
    let mut out = String::new();
    push_hex_padded(&mut out, inst.pc as u64, 4);
    out.append(": ");
    out.append(inst.name.as_str());
    out.append(" (0x");
    push_byte_hex(&mut out, inst.opcode);
    out.append(")");
    if inst.immediate.len() > 0 {
        out.append(" 0x");
        let ghost before = out@;
        let mut i: usize = 0;
        while i < inst.immediate.len()
            invariant
                i <= inst.immediate@.len(),
                out@ == before + bytes_hex(inst.immediate@.subrange(0, i as int)),
            decreases inst.immediate@.len() - i,
        {
            push_byte_hex(&mut out, inst.immediate[i]);
            i = i + 1;
            proof {
                assert(inst.immediate@.subrange(0, i as int).drop_last() =~= inst.immediate@.subrange(
                    0,
                    (i - 1) as int,
                ));
            }
        }
        proof {
            assert(inst.immediate@.subrange(0, i as int) =~= inst.immediate@);
        }
    }
    out
}

/// The disassembly of `bytecode` as printable lines, one per instruction.
pub fn format_disassembly(bytecode: &[u8]) -> (r: Vec<String>)
    ensures
        r@.len() == disassembly(bytecode@).len(),
        forall|i: int| 0 <= i < r@.len() ==> #[trigger] r@[i]@ == instruction_text(disassembly(bytecode@)[i]),
{
    let insts = disassemble(bytecode);
    let mut lines: Vec<String> = Vec::new();
    let mut i: usize = 0;
    while i < insts.len()
        invariant
            i <= insts@.len(),
            insts@.len() == disassembly(bytecode@).len(),
            forall|k: int| 0 <= k < insts@.len() ==> #[trigger] insts@[k]@ == disassembly(bytecode@)[k],
            lines@.len() == i,
            forall|k: int| 0 <= k < i ==> #[trigger] lines@[k]@ == instruction_text(disassembly(bytecode@)[k]),
        decreases insts@.len() - i,
    {
        let line = format_instruction(&insts[i]);
        lines.push(line);
        i = i + 1;
    }
    lines
}

} // verus!
