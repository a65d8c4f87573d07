//! Execution tracing: a per-opcode record of gas consumption, and opcode mnemonics.

use vstd::prelude::*;
use vstd::string::*;
use crate::evm::opcodes::exec::is_defined;
use crate::text::{
    byte_hex, dec_text, fill, hex_text, pad_left, pad_right, push_byte_hex, push_dec,
    push_dec_padded, push_fill, push_hex_padded, push_left_aligned, push_right_aligned,
};

verus! {

/// The mnemonic of an opcode; "UNKNOWN" for bytes that are not opcodes.
pub open spec fn opcode_mnemonic(opcode: u8) -> Seq<char> {
    match opcode {
        0x00u8 => "STOP"@,
        0x01u8 => "ADD"@,
        0x02u8 => "MUL"@,
        0x03u8 => "SUB"@,
        0x04u8 => "DIV"@,
        0x05u8 => "SDIV"@,
        0x06u8 => "MOD"@,
        0x07u8 => "SMOD"@,
        0x08u8 => "ADDMOD"@,
        0x09u8 => "MULMOD"@,
        0x0au8 => "EXP"@,
        0x0bu8 => "SIGNEXTEND"@,
        0x10u8 => "LT"@,
        0x11u8 => "GT"@,
        0x12u8 => "SLT"@,
        0x13u8 => "SGT"@,
        0x14u8 => "EQ"@,
        0x15u8 => "ISZERO"@,
        0x16u8 => "AND"@,
        0x17u8 => "OR"@,
        0x18u8 => "XOR"@,
        0x19u8 => "NOT"@,
        0x1au8 => "BYTE"@,
        0x1bu8 => "SHL"@,
        0x1cu8 => "SHR"@,
        0x1du8 => "SAR"@,
        0x20u8 => "KECCAK256"@,
        0x30u8 => "ADDRESS"@,
        0x31u8 => "BALANCE"@,
        0x32u8 => "ORIGIN"@,
        0x33u8 => "CALLER"@,
        0x34u8 => "CALLVALUE"@,
        0x35u8 => "CALLDATALOAD"@,
        0x36u8 => "CALLDATASIZE"@,
        0x37u8 => "CALLDATACOPY"@,
        0x38u8 => "CODESIZE"@,
        0x39u8 => "CODECOPY"@,
        0x3au8 => "GASPRICE"@,
        0x3bu8 => "EXTCODESIZE"@,
        0x3cu8 => "EXTCODECOPY"@,
        0x3du8 => "RETURNDATASIZE"@,
        0x3eu8 => "RETURNDATACOPY"@,
        0x3fu8 => "EXTCODEHASH"@,
        0x40u8 => "BLOCKHASH"@,
        0x41u8 => "COINBASE"@,
        0x42u8 => "TIMESTAMP"@,
        0x43u8 => "NUMBER"@,
        0x44u8 => "PREVRANDAO"@,
        0x45u8 => "GASLIMIT"@,
        0x46u8 => "CHAINID"@,
        0x47u8 => "SELFBALANCE"@,
        0x48u8 => "BASEFEE"@,
        0x49u8 => "BLOBHASH"@,
        0x4au8 => "BLOBBASEFEE"@,
        0x50u8 => "POP"@,
        0x51u8 => "MLOAD"@,
        0x52u8 => "MSTORE"@,
        0x53u8 => "MSTORE8"@,
        0x54u8 => "SLOAD"@,
        0x55u8 => "SSTORE"@,
        0x56u8 => "JUMP"@,
        0x57u8 => "JUMPI"@,
        0x58u8 => "PC"@,
        0x59u8 => "MSIZE"@,
        0x5au8 => "GAS"@,
        0x5bu8 => "JUMPDEST"@,
        0x5cu8 => "TLOAD"@,
        0x5du8 => "TSTORE"@,
        0x5eu8 => "MCOPY"@,
        0x5fu8 => "PUSH0"@,
        0x60u8 => "PUSH1"@,
        0x61u8 => "PUSH2"@,
        0x62u8 => "PUSH3"@,
        0x63u8 => "PUSH4"@,
        0x64u8 => "PUSH5"@,
        0x65u8 => "PUSH6"@,
        0x66u8 => "PUSH7"@,
        0x67u8 => "PUSH8"@,
        0x68u8 => "PUSH9"@,
        0x69u8 => "PUSH10"@,
        0x6au8 => "PUSH11"@,
        0x6bu8 => "PUSH12"@,
        0x6cu8 => "PUSH13"@,
        0x6du8 => "PUSH14"@,
        0x6eu8 => "PUSH15"@,
        0x6fu8 => "PUSH16"@,
        0x70u8 => "PUSH17"@,
        0x71u8 => "PUSH18"@,
        0x72u8 => "PUSH19"@,
        0x73u8 => "PUSH20"@,
        0x74u8 => "PUSH21"@,
        0x75u8 => "PUSH22"@,
        0x76u8 => "PUSH23"@,
        0x77u8 => "PUSH24"@,
        0x78u8 => "PUSH25"@,
        0x79u8 => "PUSH26"@,
        0x7au8 => "PUSH27"@,
        0x7bu8 => "PUSH28"@,
        0x7cu8 => "PUSH29"@,
        0x7du8 => "PUSH30"@,
        0x7eu8 => "PUSH31"@,
        0x7fu8 => "PUSH32"@,
        0x80u8 => "DUP1"@,
        0x81u8 => "DUP2"@,
        0x82u8 => "DUP3"@,
        0x83u8 => "DUP4"@,
        0x84u8 => "DUP5"@,
        0x85u8 => "DUP6"@,
        0x86u8 => "DUP7"@,
        0x87u8 => "DUP8"@,
        0x88u8 => "DUP9"@,
        0x89u8 => "DUP10"@,
        0x8au8 => "DUP11"@,
        0x8bu8 => "DUP12"@,
        0x8cu8 => "DUP13"@,
        0x8du8 => "DUP14"@,
        0x8eu8 => "DUP15"@,
        0x8fu8 => "DUP16"@,
        0x90u8 => "SWAP1"@,
        0x91u8 => "SWAP2"@,
        0x92u8 => "SWAP3"@,
        0x93u8 => "SWAP4"@,
        0x94u8 => "SWAP5"@,
        0x95u8 => "SWAP6"@,
        0x96u8 => "SWAP7"@,
        0x97u8 => "SWAP8"@,
        0x98u8 => "SWAP9"@,
        0x99u8 => "SWAP10"@,
        0x9au8 => "SWAP11"@,
        0x9bu8 => "SWAP12"@,
        0x9cu8 => "SWAP13"@,
        0x9du8 => "SWAP14"@,
        0x9eu8 => "SWAP15"@,
        0x9fu8 => "SWAP16"@,
        0xa0u8 => "LOG0"@,
        0xa1u8 => "LOG1"@,
        0xa2u8 => "LOG2"@,
        0xa3u8 => "LOG3"@,
        0xa4u8 => "LOG4"@,
        0xf0u8 => "CREATE"@,
        0xf1u8 => "CALL"@,
        0xf2u8 => "CALLCODE"@,
        0xf3u8 => "RETURN"@,
        0xf4u8 => "DELEGATECALL"@,
        0xf5u8 => "CREATE2"@,
        0xfau8 => "STATICCALL"@,
        0xfdu8 => "REVERT"@,
        0xfeu8 => "INVALID"@,
        0xffu8 => "SELFDESTRUCT"@,
        _ => "UNKNOWN"@,
    }
}

/// The mnemonic of an opcode ("UNKNOWN" for bytes that are not opcodes).
pub fn opcode_name(opcode: u8) -> (r: &'static str)
    ensures
        r@ == opcode_mnemonic(opcode),
{
    match opcode {
        0x00u8 => "STOP",
        0x01u8 => "ADD",
        0x02u8 => "MUL",
        0x03u8 => "SUB",
        0x04u8 => "DIV",
        0x05u8 => "SDIV",
        0x06u8 => "MOD",
        0x07u8 => "SMOD",
        0x08u8 => "ADDMOD",
        0x09u8 => "MULMOD",
        0x0au8 => "EXP",
        0x0bu8 => "SIGNEXTEND",
        0x10u8 => "LT",
        0x11u8 => "GT",
        0x12u8 => "SLT",
        0x13u8 => "SGT",
        0x14u8 => "EQ",
        0x15u8 => "ISZERO",
        0x16u8 => "AND",
        0x17u8 => "OR",
        0x18u8 => "XOR",
        0x19u8 => "NOT",
        0x1au8 => "BYTE",
        0x1bu8 => "SHL",
        0x1cu8 => "SHR",
        0x1du8 => "SAR",
        0x20u8 => "KECCAK256",
        0x30u8 => "ADDRESS",
        0x31u8 => "BALANCE",
        0x32u8 => "ORIGIN",
        0x33u8 => "CALLER",
        0x34u8 => "CALLVALUE",
        0x35u8 => "CALLDATALOAD",
        0x36u8 => "CALLDATASIZE",
        0x37u8 => "CALLDATACOPY",
        0x38u8 => "CODESIZE",
        0x39u8 => "CODECOPY",
        0x3au8 => "GASPRICE",
        0x3bu8 => "EXTCODESIZE",
        0x3cu8 => "EXTCODECOPY",
        0x3du8 => "RETURNDATASIZE",
        0x3eu8 => "RETURNDATACOPY",
        0x3fu8 => "EXTCODEHASH",
        0x40u8 => "BLOCKHASH",
        0x41u8 => "COINBASE",
        0x42u8 => "TIMESTAMP",
        0x43u8 => "NUMBER",
        0x44u8 => "PREVRANDAO",
        0x45u8 => "GASLIMIT",
        0x46u8 => "CHAINID",
        0x47u8 => "SELFBALANCE",
        0x48u8 => "BASEFEE",
        0x49u8 => "BLOBHASH",
        0x4au8 => "BLOBBASEFEE",
        0x50u8 => "POP",
        0x51u8 => "MLOAD",
        0x52u8 => "MSTORE",
        0x53u8 => "MSTORE8",
        0x54u8 => "SLOAD",
        0x55u8 => "SSTORE",
        0x56u8 => "JUMP",
        0x57u8 => "JUMPI",
        0x58u8 => "PC",
        0x59u8 => "MSIZE",
        0x5au8 => "GAS",
        0x5bu8 => "JUMPDEST",
        0x5cu8 => "TLOAD",
        0x5du8 => "TSTORE",
        0x5eu8 => "MCOPY",
        0x5fu8 => "PUSH0",
        0x60u8 => "PUSH1",
        0x61u8 => "PUSH2",
        0x62u8 => "PUSH3",
        0x63u8 => "PUSH4",
        0x64u8 => "PUSH5",
        0x65u8 => "PUSH6",
        0x66u8 => "PUSH7",
        0x67u8 => "PUSH8",
        0x68u8 => "PUSH9",
        0x69u8 => "PUSH10",
        0x6au8 => "PUSH11",
        0x6bu8 => "PUSH12",
        0x6cu8 => "PUSH13",
        0x6du8 => "PUSH14",
        0x6eu8 => "PUSH15",
        0x6fu8 => "PUSH16",
        0x70u8 => "PUSH17",
        0x71u8 => "PUSH18",
        0x72u8 => "PUSH19",
        0x73u8 => "PUSH20",
        0x74u8 => "PUSH21",
        0x75u8 => "PUSH22",
        0x76u8 => "PUSH23",
        0x77u8 => "PUSH24",
        0x78u8 => "PUSH25",
        0x79u8 => "PUSH26",
        0x7au8 => "PUSH27",
        0x7bu8 => "PUSH28",
        0x7cu8 => "PUSH29",
        0x7du8 => "PUSH30",
        0x7eu8 => "PUSH31",
        0x7fu8 => "PUSH32",
        0x80u8 => "DUP1",
        0x81u8 => "DUP2",
        0x82u8 => "DUP3",
        0x83u8 => "DUP4",
        0x84u8 => "DUP5",
        0x85u8 => "DUP6",
        0x86u8 => "DUP7",
        0x87u8 => "DUP8",
        0x88u8 => "DUP9",
        0x89u8 => "DUP10",
        0x8au8 => "DUP11",
        0x8bu8 => "DUP12",
        0x8cu8 => "DUP13",
        0x8du8 => "DUP14",
        0x8eu8 => "DUP15",
        0x8fu8 => "DUP16",
        0x90u8 => "SWAP1",
        0x91u8 => "SWAP2",
        0x92u8 => "SWAP3",
        0x93u8 => "SWAP4",
        0x94u8 => "SWAP5",
        0x95u8 => "SWAP6",
        0x96u8 => "SWAP7",
        0x97u8 => "SWAP8",
        0x98u8 => "SWAP9",
        0x99u8 => "SWAP10",
        0x9au8 => "SWAP11",
        0x9bu8 => "SWAP12",
        0x9cu8 => "SWAP13",
        0x9du8 => "SWAP14",
        0x9eu8 => "SWAP15",
        0x9fu8 => "SWAP16",
        0xa0u8 => "LOG0",
        0xa1u8 => "LOG1",
        0xa2u8 => "LOG2",
        0xa3u8 => "LOG3",
        0xa4u8 => "LOG4",
        0xf0u8 => "CREATE",
        0xf1u8 => "CALL",
        0xf2u8 => "CALLCODE",
        0xf3u8 => "RETURN",
        0xf4u8 => "DELEGATECALL",
        0xf5u8 => "CREATE2",
        0xfau8 => "STATICCALL",
        0xfdu8 => "REVERT",
        0xfeu8 => "INVALID",
        0xffu8 => "SELFDESTRUCT",
        _ => "UNKNOWN",
    }
}

/// Gas record of a single executed opcode.
#[derive(Debug, Clone, PartialEq, Eq)]
pub struct GasTraceEntry {
    /// Program counter (bytecode offset).
    pub pc: usize,
    /// Opcode byte.
    pub opcode: u8,
    /// Opcode mnemonic.
    pub name: &'static str,
    /// Gas available before execution.
    pub gas_before: u64,
    /// Gas consumed by this opcode.
    pub gas_cost: u64,
    /// Gas available after execution.
    pub gas_after: u64,
    /// Gas used from the start of execution up to and including this opcode.
    pub cumulative_gas: u64,
}

/// A captured gas trace of a full execution.
#[derive(Debug, Clone, PartialEq, Eq)]
pub struct GasTrace {
    /// Initial gas limit of the execution.
    pub initial_gas: u64,
    /// Recorded entries, in execution order.
    pub entries: Vec<GasTraceEntry>,
}

/// Gas used: the initial gas less the gas left after the last entry (0 when there
/// are no entries), saturating at 0.
pub open spec fn gas_used_of(initial_gas: u64, entries: Seq<GasTraceEntry>) -> nat {
    let last_after = if entries.len() == 0 {
        initial_gas
    } else {
        entries.last().gas_after
    };
    if initial_gas >= last_after {
        (initial_gas - last_after) as nat
    } else {
        0
    }
}

/// The heading of a printed trace: the initial and used gas, the column titles and
/// a rule of 70 dashes.
pub open spec fn trace_heading(initial_gas: u64, used: nat) -> Seq<char> {
    "Gas Trace (initial: "@ + dec_text(initial_gas as nat) + ", used: "@ + dec_text(used)
        + ")\n"@ + pad_left("PC"@, 6, ' ') + " "@ + pad_left("Opcode"@, 12, ' ') + " "@
        + pad_left("Before"@, 10, ' ') + " "@ + pad_left("Cost"@, 10, ' ') + " "@ + pad_left(
        "After"@,
        10,
        ' ',
    ) + " "@ + pad_left("Cumulative"@, 12, ' ') + "\n"@ + fill('-', 70) + "\n"@
}

/// One printed trace line: the pc in six hexadecimal digits, "NAME (0xoo)"
/// left-aligned in twelve columns, and the four gas figures right-aligned.
pub open spec fn trace_row(e: GasTraceEntry) -> Seq<char> {
    pad_left(hex_text(e.pc as nat), 6, '0') + " "@ + pad_right(
        e.name@ + " (0x"@ + byte_hex(e.opcode) + ")"@,
        12,
    ) + " "@ + pad_left(dec_text(e.gas_before as nat), 10, ' ') + " "@ + pad_left(
        dec_text(e.gas_cost as nat),
        10,
        ' ',
    ) + " "@ + pad_left(dec_text(e.gas_after as nat), 10, ' ') + " "@ + pad_left(
        dec_text(e.cumulative_gas as nat),
        12,
        ' ',
    ) + "\n"@
}

/// The printed lines of `entries`, in order.
pub open spec fn trace_rows(entries: Seq<GasTraceEntry>) -> Seq<char>
    decreases entries.len(),
{
    if entries.len() == 0 {
        Seq::empty()
    } else {
        trace_rows(entries.drop_last()) + trace_row(entries.last())
    }
}

/// The printed form of a trace.
pub open spec fn trace_text(initial_gas: u64, entries: Seq<GasTraceEntry>) -> Seq<char> {
    trace_heading(initial_gas, gas_used_of(initial_gas, entries)) + trace_rows(entries)
}

fn push_trace_row(out: &mut String, e: &GasTraceEntry)
    ensures
        final(out)@ == old(out)@ + trace_row(*e),
{
    push_hex_padded(out, e.pc as u64, 6);
    out.append(" ");
    let mut cell = String::from_str(e.name);
    cell.append(" (0x");
    push_byte_hex(&mut cell, e.opcode);
    cell.append(")");
    push_left_aligned(out, cell.as_str(), 12);
    out.append(" ");
    push_dec_padded(out, e.gas_before, 10);
    out.append(" ");
    push_dec_padded(out, e.gas_cost, 10);
    out.append(" ");
    push_dec_padded(out, e.gas_after, 10);
    out.append(" ");
    push_dec_padded(out, e.cumulative_gas, 12);
    out.append("\n");
}

fn format_trace(initial_gas: u64, entries: &[GasTraceEntry], used: u64) -> (r: String)
    requires
        used == gas_used_of(initial_gas, entries@),
    ensures
        r@ == trace_text(initial_gas, entries@),
{
    let mut out = String::from_str("Gas Trace (initial: ");
    push_dec(&mut out, initial_gas);
    out.append(", used: ");
    push_dec(&mut out, used);
    out.append(")\n");
    push_right_aligned(&mut out, "PC", 6);
    out.append(" ");
    push_right_aligned(&mut out, "Opcode", 12);
    out.append(" ");
    push_right_aligned(&mut out, "Before", 10);
    out.append(" ");
    push_right_aligned(&mut out, "Cost", 10);
    out.append(" ");
    push_right_aligned(&mut out, "After", 10);
    out.append(" ");
    push_right_aligned(&mut out, "Cumulative", 12);
    out.append("\n");
    proof {
        reveal_strlit("-");
    }
    push_fill(&mut out, "-", 70);
    out.append("\n");
    let ghost heading = out@;
    proof {
        assert(heading == trace_heading(initial_gas, used as nat));
    }
    let mut i: usize = 0;
    while i < entries.len()
        invariant
            i <= entries@.len(),
            out@ == heading + trace_rows(entries@.subrange(0, i as int)),
        decreases entries@.len() - i,
    {
        push_trace_row(&mut out, &entries[i]);
        i = i + 1;
        proof {
            assert(entries@.subrange(0, i as int).drop_last() =~= entries@.subrange(0, (i - 1) as int));
        }
    }
    proof {
        assert(entries@.subrange(0, i as int) =~= entries@);
    }
    out
}

impl GasTrace {
    /// The trace as human-readable text.
    pub fn format(&self) -> (r: String)
        ensures
            r@ == trace_text(self.initial_gas, self.entries@),
    {
        let last_after = if self.entries.len() == 0 {
            self.initial_gas
        } else {
            self.entries[self.entries.len() - 1].gas_after
        };
        format_trace(self.initial_gas, self.entries.as_slice(), self.initial_gas.saturating_sub(last_after))
    }
}

/// Every entry's cumulative gas is the initial gas less the gas left after it.
pub open spec fn consistent_entries(initial_gas: u64, entries: Seq<GasTraceEntry>) -> bool {
    forall|i: int|
        0 <= i < entries.len() ==> #[trigger] entries[i].gas_after <= initial_gas
            && entries[i].cumulative_gas == initial_gas - entries[i].gas_after
}

/// Once something is recorded, the gas used is the cumulative gas of the last
/// entry.
pub proof fn lemma_used_is_last_cumulative(initial_gas: u64, entries: Seq<GasTraceEntry>)
    requires
        consistent_entries(initial_gas, entries),
        entries.len() > 0,
    ensures
        gas_used_of(initial_gas, entries) == entries.last().cumulative_gas,
{
    assert(entries.last() == entries[entries.len() - 1]);
}

/// Records per-opcode gas consumption.
#[derive(Debug, Clone)]
pub struct GasTracer {
    entries: Vec<GasTraceEntry>,
    initial_gas: u64,
}

impl GasTracer {
    /// The entries recorded so far.
    pub closed spec fn recorded(&self) -> Seq<GasTraceEntry> {
        self.entries@
    }

    /// The initial gas limit.
    pub closed spec fn initial(&self) -> u64 {
        self.initial_gas
    }

    /// A tracer with no entries for an execution starting with `initial_gas`.
    pub fn new(initial_gas: u64) -> (r: GasTracer)
        ensures
            r.recorded() == Seq::<GasTraceEntry>::empty(),
            consistent_entries(r.initial(), r.recorded()),
            r.initial() == initial_gas,
    {
        GasTracer { entries: Vec::new(), initial_gas }
    }

    /// Records one opcode; its cumulative gas is the initial gas less `gas_after`.
    pub fn trace(
        &mut self,
        pc: usize,
        opcode: u8,
        name: &'static str,
        gas_before: u64,
        gas_cost: u64,
        gas_after: u64,
    )
        requires
            gas_after <= old(self).initial(),
        ensures
            final(self).initial() == old(self).initial(),
            consistent_entries(old(self).initial(), old(self).recorded()) ==> consistent_entries(
                final(self).initial(),
                final(self).recorded(),
            ),
            final(self).recorded() == old(self).recorded().push(
                GasTraceEntry {
                    pc,
                    opcode,
                    name,
                    gas_before,
                    gas_cost,
                    gas_after,
                    cumulative_gas: (old(self).initial() - gas_after) as u64,
                },
            ),
    {
        let cumulative_gas = self.initial_gas - gas_after;
        self.entries.push(
            GasTraceEntry { pc, opcode, name, gas_before, gas_cost, gas_after, cumulative_gas },
        );
    }

    /// All recorded entries.
    pub fn entries(&self) -> (r: &[GasTraceEntry])
        ensures
            r@ == self.recorded(),
    {
        self.entries.as_slice()
    }

    /// Total gas used: the initial gas less the gas left after the last entry.
    pub fn total_gas_used(&self) -> (r: u64)
        ensures
            r == gas_used_of(self.initial(), self.recorded()),
    {
        let last_after = if self.entries.len() == 0 {
            self.initial_gas
        } else {
            self.entries[self.entries.len() - 1].gas_after
        };
        self.initial_gas.saturating_sub(last_after)
    }

    /// The trace so far as human-readable text.
    pub fn format(&self) -> (r: String)
        ensures
            r@ == trace_text(self.initial(), self.recorded()),
    {
        format_trace(self.initial_gas, self.entries.as_slice(), self.total_gas_used())
    }

    /// A copy of the trace so far.
    pub fn snapshot(&self) -> (r: GasTrace)
        ensures
            r.initial_gas == self.initial(),
            r.entries@ == self.recorded(),
    {
        let mut entries: Vec<GasTraceEntry> = Vec::new();
        let mut i: usize = 0;
        while i < self.entries.len()
            invariant
                i <= self.entries@.len(),
                entries@ == self.entries@.subrange(0, i as int),
            decreases self.entries@.len() - i,
        {
            let e = &self.entries[i];
            entries.push(
                GasTraceEntry {
                    pc: e.pc,
                    opcode: e.opcode,
                    name: e.name,
                    gas_before: e.gas_before,
                    gas_cost: e.gas_cost,
                    gas_after: e.gas_after,
                    cumulative_gas: e.cumulative_gas,
                },
            );
            i = i + 1;
            proof {
                assert(entries@ =~= self.entries@.subrange(0, i as int));
            }
        }
        proof {
            assert(entries@ =~= self.entries@);
        }
        GasTrace { initial_gas: self.initial_gas, entries }
    }
}

impl Default for GasTracer {
    fn default() -> (r: GasTracer)
        ensures
            r.recorded() == Seq::<GasTraceEntry>::empty(),
            r.initial() == 0,
    {
        GasTracer::new(0)
    }
}


// =============================================================================
// Mnemonics are distinct
// =============================================================================

/// The first `n` characters of `s` read as a number in base 128.
spec fn name_code_upto(s: Seq<char>, n: nat) -> nat
    decreases n,
{
    if n == 0 {
        0
    } else {
        name_code_upto(s, (n - 1) as nat) * 128 + (s[n - 1] as nat)
    }
}

/// A name read as a number in base 128.
spec fn name_code(s: Seq<char>) -> nat {
    name_code_upto(s, s.len())
}

/// The opcode whose mnemonic reads as `c` in base 128, if any.
spec fn opcode_with_code(c: nat) -> Option<u8> {
    if c == 175450064 {
        Some(0x00u8)
    } else if c == 1073732 {
        Some(0x01u8)
    } else if c == 1272524 {
        Some(0x02u8)
    } else if c == 1370818 {
        Some(0x03u8)
    } else if c == 1123542 {
        Some(0x04u8)
    } else if c == 175187158 {
        Some(0x05u8)
    } else if c == 1271748 {
        Some(0x06u8)
    } else if c == 175335364 {
        Some(0x07u8)
    } else if c == 2251780483012 {
        Some(0x08u8)
    } else if c == 2668677523396 {
        Some(0x09u8)
    } else if c == 1141840 {
        Some(0x0au8)
    } else if c == 770840398312657479492 {
        Some(0x0bu8)
    } else if c == 9812 {
        Some(0x10u8)
    } else if c == 9172 {
        Some(0x11u8)
    } else if c == 1369684 {
        Some(0x12u8)
    } else if c == 1369044 {
        Some(0x13u8)
    } else if c == 8913 {
        Some(0x14u8)
    } else if c == 2530730928463 {
        Some(0x15u8)
    } else if c == 1075012 {
        Some(0x16u8)
    } else if c == 10194 {
        Some(0x17u8)
    } else if c == 1451986 {
        Some(0x18u8)
    } else if c == 1288148 {
        Some(0x19u8)
    } else if c == 139881029 {
        Some(0x1au8)
    } else if c == 1369164 {
        Some(0x1bu8)
    } else if c == 1369170 {
        Some(0x1cu8)
    } else if c == 1368274 {
        Some(0x1du8)
    } else if c == 5443460088455797430 {
        Some(0x20u8)
    } else if c == 288227912149459 {
        Some(0x30u8)
    } else if c == 292524991422917 {
        Some(0x31u8)
    } else if c == 2736585303246 {
        Some(0x32u8)
    } else if c == 2319711412946 {
        Some(0x33u8)
    } else if c == 4864787433611537093 {
        Some(0x34u8)
    } else if c == 10202198685840472601256132 {
        Some(0x35u8)
    } else if c == 10202198685840472615841093 {
        Some(0x36u8)
    } else if c == 10202198685840472582383705 {
        Some(0x37u8)
    } else if c == 38067447713131845 {
        Some(0x38u8)
    } else if c == 38067447679674457 {
        Some(0x39u8)
    } else if c == 40258193222427077 {
        Some(0x3au8)
    } else if c == 82278569474091499285829 {
        Some(0x3bu8)
    } else if c == 82278569474091465828441 {
        Some(0x3cu8)
    } else if c == 204369615381026199009374661957 {
        Some(0x3du8)
    } else if c == 204369615381026199009341204569 {
        Some(0x3eu8)
    } else if c == 82278569474091476085192 {
        Some(0x3fu8)
    } else if c == 4798935171024841160 {
        Some(0x40u8)
    } else if c == 38067621891959237 {
        Some(0x41u8)
    } else if c == 6094274288646383312 {
        Some(0x42u8)
    } else if c == 2703039177426 {
        Some(0x43u8)
    } else if c == 743817710273389732047 {
        Some(0x44u8)
    } else if c == 40258192129877204 {
        Some(0x45u8)
    } else if c == 297160620090564 {
        Some(0x46u8)
    } else if c == 98631033266256731152837 {
        Some(0x47u8)
    } else if c == 292526878728901 {
        Some(0x48u8)
    } else if c == 37491680748792264 {
        Some(0x49u8)
    } else if c == 78625753239302909829829 {
        Some(0x4au8)
    } else if c == 1320912 {
        Some(0x50u8)
    } else if c == 20830216388 {
        Some(0x51u8)
    } else if c == 2668157462853 {
        Some(0x52u8)
    } else if c == 341524155245240 {
        Some(0x53u8)
    } else if c == 22440829124 {
        Some(0x54u8)
    } else if c == 2874315893061 {
        Some(0x55u8)
    } else if c == 156591824 {
        Some(0x56u8)
    } else if c == 20043753545 {
        Some(0x57u8)
    } else if c == 10307 {
        Some(0x58u8)
    } else if c == 20844801349 {
        Some(0x59u8)
    } else if c == 1171667 {
        Some(0x5au8)
    } else if c == 42034797825059284 {
        Some(0x5bu8)
    } else if c == 22709264580 {
        Some(0x5cu8)
    } else if c == 2908675631429 {
        Some(0x5du8)
    } else if c == 20811343961 {
        Some(0x5eu8)
    } else if c == 21654463536 {
        Some(0x5fu8)
    } else if c == 21654463537 {
        Some(0x60u8)
    } else if c == 21654463538 {
        Some(0x61u8)
    } else if c == 21654463539 {
        Some(0x62u8)
    } else if c == 21654463540 {
        Some(0x63u8)
    } else if c == 21654463541 {
        Some(0x64u8)
    } else if c == 21654463542 {
        Some(0x65u8)
    } else if c == 21654463543 {
        Some(0x66u8)
    } else if c == 21654463544 {
        Some(0x67u8)
    } else if c == 21654463545 {
        Some(0x68u8)
    } else if c == 2771771332784 {
        Some(0x69u8)
    } else if c == 2771771332785 {
        Some(0x6au8)
    } else if c == 2771771332786 {
        Some(0x6bu8)
    } else if c == 2771771332787 {
        Some(0x6cu8)
    } else if c == 2771771332788 {
        Some(0x6du8)
    } else if c == 2771771332789 {
        Some(0x6eu8)
    } else if c == 2771771332790 {
        Some(0x6fu8)
    } else if c == 2771771332791 {
        Some(0x70u8)
    } else if c == 2771771332792 {
        Some(0x71u8)
    } else if c == 2771771332793 {
        Some(0x72u8)
    } else if c == 2771771332912 {
        Some(0x73u8)
    } else if c == 2771771332913 {
        Some(0x74u8)
    } else if c == 2771771332914 {
        Some(0x75u8)
    } else if c == 2771771332915 {
        Some(0x76u8)
    } else if c == 2771771332916 {
        Some(0x77u8)
    } else if c == 2771771332917 {
        Some(0x78u8)
    } else if c == 2771771332918 {
        Some(0x79u8)
    } else if c == 2771771332919 {
        Some(0x7au8)
    } else if c == 2771771332920 {
        Some(0x7bu8)
    } else if c == 2771771332921 {
        Some(0x7cu8)
    } else if c == 2771771333040 {
        Some(0x7du8)
    } else if c == 2771771333041 {
        Some(0x7eu8)
    } else if c == 2771771333042 {
        Some(0x7fu8)
    } else if c == 144009265 {
        Some(0x80u8)
    } else if c == 144009266 {
        Some(0x81u8)
    } else if c == 144009267 {
        Some(0x82u8)
    } else if c == 144009268 {
        Some(0x83u8)
    } else if c == 144009269 {
        Some(0x84u8)
    } else if c == 144009270 {
        Some(0x85u8)
    } else if c == 144009271 {
        Some(0x86u8)
    } else if c == 144009272 {
        Some(0x87u8)
    } else if c == 144009273 {
        Some(0x88u8)
    } else if c == 18433185968 {
        Some(0x89u8)
    } else if c == 18433185969 {
        Some(0x8au8)
    } else if c == 18433185970 {
        Some(0x8bu8)
    } else if c == 18433185971 {
        Some(0x8cu8)
    } else if c == 18433185972 {
        Some(0x8du8)
    } else if c == 18433185973 {
        Some(0x8eu8)
    } else if c == 18433185974 {
        Some(0x8fu8)
    } else if c == 22463670321 {
        Some(0x90u8)
    } else if c == 22463670322 {
        Some(0x91u8)
    } else if c == 22463670323 {
        Some(0x92u8)
    } else if c == 22463670324 {
        Some(0x93u8)
    } else if c == 22463670325 {
        Some(0x94u8)
    } else if c == 22463670326 {
        Some(0x95u8)
    } else if c == 22463670327 {
        Some(0x96u8)
    } else if c == 22463670328 {
        Some(0x97u8)
    } else if c == 22463670329 {
        Some(0x98u8)
    } else if c == 2875349801136 {
        Some(0x99u8)
    } else if c == 2875349801137 {
        Some(0x9au8)
    } else if c == 2875349801138 {
        Some(0x9bu8)
    } else if c == 2875349801139 {
        Some(0x9cu8)
    } else if c == 2875349801140 {
        Some(0x9du8)
    } else if c == 2875349801141 {
        Some(0x9eu8)
    } else if c == 2875349801142 {
        Some(0x9fu8)
    } else if c == 160687024 {
        Some(0xa0u8)
    } else if c == 160687025 {
        Some(0xa1u8)
    } else if c == 160687026 {
        Some(0xa2u8)
    } else if c == 160687027 {
        Some(0xa3u8)
    } else if c == 160687028 {
        Some(0xa4u8)
    } else if c == 2324259957317 {
        Some(0xf0u8)
    } else if c == 141583948 {
        Some(0xf1u8)
    } else if c == 38006151785472581 {
        Some(0xf2u8)
    } else if c == 2836198156622 {
        Some(0xf3u8)
    } else if c == 10358036277060863542715980 {
        Some(0xf4u8)
    } else if c == 297505274536626 {
        Some(0xf5u8)
    } else if c == 771629680667399317068 {
        Some(0xfau8)
    } else if c == 2836202088788 {
        Some(0xfdu8)
    } else if c == 323760677921988 {
        Some(0xfeu8)
    } else if c == 12624772259224599307575764 {
        Some(0xffu8)
    } else {
        None
    }
}

/// Each defined opcode from 0x00 to 0x1c is the one opcode its mnemonic names.
proof fn lemma_mnemonic_code_0(op: u8)
    requires
        is_defined(op),
        0x00 <= op <= 0x1c,
    ensures
        opcode_with_code(name_code(opcode_mnemonic(op))) == Some(op),
{
    reveal_with_fuel(name_code_upto, 15);
    if op == 0x00u8 {
        reveal_strlit("STOP");
        assert(name_code(opcode_mnemonic(op)) == 175450064);
    } else if op == 0x01u8 {
        reveal_strlit("ADD");
        assert(name_code(opcode_mnemonic(op)) == 1073732);
    } else if op == 0x02u8 {
        reveal_strlit("MUL");
        assert(name_code(opcode_mnemonic(op)) == 1272524);
    } else if op == 0x03u8 {
        reveal_strlit("SUB");
        assert(name_code(opcode_mnemonic(op)) == 1370818);
    } else if op == 0x04u8 {
        reveal_strlit("DIV");
        assert(name_code(opcode_mnemonic(op)) == 1123542);
    } else if op == 0x05u8 {
        reveal_strlit("SDIV");
        assert(name_code(opcode_mnemonic(op)) == 175187158);
    } else if op == 0x06u8 {
        reveal_strlit("MOD");
        assert(name_code(opcode_mnemonic(op)) == 1271748);
    } else if op == 0x07u8 {
        reveal_strlit("SMOD");
        assert(name_code(opcode_mnemonic(op)) == 175335364);
    } else if op == 0x08u8 {
        reveal_strlit("ADDMOD");
        assert(name_code(opcode_mnemonic(op)) == 2251780483012);
    } else if op == 0x09u8 {
        reveal_strlit("MULMOD");
        assert(name_code(opcode_mnemonic(op)) == 2668677523396);
    } else if op == 0x0au8 {
        reveal_strlit("EXP");
        assert(name_code(opcode_mnemonic(op)) == 1141840);
    } else if op == 0x0bu8 {
        reveal_strlit("SIGNEXTEND");
        assert(name_code(opcode_mnemonic(op)) == 770840398312657479492);
    } else if op == 0x10u8 {
        reveal_strlit("LT");
        assert(name_code(opcode_mnemonic(op)) == 9812);
    } else if op == 0x11u8 {
        reveal_strlit("GT");
        assert(name_code(opcode_mnemonic(op)) == 9172);
    } else if op == 0x12u8 {
        reveal_strlit("SLT");
        assert(name_code(opcode_mnemonic(op)) == 1369684);
    } else if op == 0x13u8 {
        reveal_strlit("SGT");
        assert(name_code(opcode_mnemonic(op)) == 1369044);
    } else if op == 0x14u8 {
        reveal_strlit("EQ");
        assert(name_code(opcode_mnemonic(op)) == 8913);
    } else if op == 0x15u8 {
        reveal_strlit("ISZERO");
        assert(name_code(opcode_mnemonic(op)) == 2530730928463);
    } else if op == 0x16u8 {
        reveal_strlit("AND");
        assert(name_code(opcode_mnemonic(op)) == 1075012);
    } else if op == 0x17u8 {
        reveal_strlit("OR");
        assert(name_code(opcode_mnemonic(op)) == 10194);
    } else if op == 0x18u8 {
        reveal_strlit("XOR");
        assert(name_code(opcode_mnemonic(op)) == 1451986);
    } else if op == 0x19u8 {
        reveal_strlit("NOT");
        assert(name_code(opcode_mnemonic(op)) == 1288148);
    } else if op == 0x1au8 {
        reveal_strlit("BYTE");
        assert(name_code(opcode_mnemonic(op)) == 139881029);
    } else if op == 0x1bu8 {
        reveal_strlit("SHL");
        assert(name_code(opcode_mnemonic(op)) == 1369164);
    } else if op == 0x1cu8 {
        reveal_strlit("SHR");
        assert(name_code(opcode_mnemonic(op)) == 1369170);
    }
}

/// Each defined opcode from 0x1d to 0x46 is the one opcode its mnemonic names.
proof fn lemma_mnemonic_code_1(op: u8)
    requires
        is_defined(op),
        0x1d <= op <= 0x46,
    ensures
        opcode_with_code(name_code(opcode_mnemonic(op))) == Some(op),
{
    reveal_with_fuel(name_code_upto, 15);
    if op == 0x1du8 {
        reveal_strlit("SAR");
        assert(name_code(opcode_mnemonic(op)) == 1368274);
    } else if op == 0x20u8 {
        reveal_strlit("KECCAK256");
        assert(name_code(opcode_mnemonic(op)) == 5443460088455797430);
    } else if op == 0x30u8 {
        reveal_strlit("ADDRESS");
        assert(name_code(opcode_mnemonic(op)) == 288227912149459);
    } else if op == 0x31u8 {
        reveal_strlit("BALANCE");
        assert(name_code(opcode_mnemonic(op)) == 292524991422917);
    } else if op == 0x32u8 {
        reveal_strlit("ORIGIN");
        assert(name_code(opcode_mnemonic(op)) == 2736585303246);
    } else if op == 0x33u8 {
        reveal_strlit("CALLER");
        assert(name_code(opcode_mnemonic(op)) == 2319711412946);
    } else if op == 0x34u8 {
        reveal_strlit("CALLVALUE");
        assert(name_code(opcode_mnemonic(op)) == 4864787433611537093);
    } else if op == 0x35u8 {
        reveal_strlit("CALLDATALOAD");
        assert(name_code(opcode_mnemonic(op)) == 10202198685840472601256132);
    } else if op == 0x36u8 {
        reveal_strlit("CALLDATASIZE");
        assert(name_code(opcode_mnemonic(op)) == 10202198685840472615841093);
    } else if op == 0x37u8 {
        reveal_strlit("CALLDATACOPY");
        assert(name_code(opcode_mnemonic(op)) == 10202198685840472582383705);
    } else if op == 0x38u8 {
        reveal_strlit("CODESIZE");
        assert(name_code(opcode_mnemonic(op)) == 38067447713131845);
    } else if op == 0x39u8 {
        reveal_strlit("CODECOPY");
        assert(name_code(opcode_mnemonic(op)) == 38067447679674457);
    } else if op == 0x3au8 {
        reveal_strlit("GASPRICE");
        assert(name_code(opcode_mnemonic(op)) == 40258193222427077);
    } else if op == 0x3bu8 {
        reveal_strlit("EXTCODESIZE");
        assert(name_code(opcode_mnemonic(op)) == 82278569474091499285829);
    } else if op == 0x3cu8 {
        reveal_strlit("EXTCODECOPY");
        assert(name_code(opcode_mnemonic(op)) == 82278569474091465828441);
    } else if op == 0x3du8 {
        reveal_strlit("RETURNDATASIZE");
        assert(name_code(opcode_mnemonic(op)) == 204369615381026199009374661957);
    } else if op == 0x3eu8 {
        reveal_strlit("RETURNDATACOPY");
        assert(name_code(opcode_mnemonic(op)) == 204369615381026199009341204569);
    } else if op == 0x3fu8 {
        reveal_strlit("EXTCODEHASH");
        assert(name_code(opcode_mnemonic(op)) == 82278569474091476085192);
    } else if op == 0x40u8 {
        reveal_strlit("BLOCKHASH");
        assert(name_code(opcode_mnemonic(op)) == 4798935171024841160);
    } else if op == 0x41u8 {
        reveal_strlit("COINBASE");
        assert(name_code(opcode_mnemonic(op)) == 38067621891959237);
    } else if op == 0x42u8 {
        reveal_strlit("TIMESTAMP");
        assert(name_code(opcode_mnemonic(op)) == 6094274288646383312);
    } else if op == 0x43u8 {
        reveal_strlit("NUMBER");
        assert(name_code(opcode_mnemonic(op)) == 2703039177426);
    } else if op == 0x44u8 {
        reveal_strlit("PREVRANDAO");
        assert(name_code(opcode_mnemonic(op)) == 743817710273389732047);
    } else if op == 0x45u8 {
        reveal_strlit("GASLIMIT");
        assert(name_code(opcode_mnemonic(op)) == 40258192129877204);
    } else if op == 0x46u8 {
        reveal_strlit("CHAINID");
        assert(name_code(opcode_mnemonic(op)) == 297160620090564);
    }
}

/// Each defined opcode from 0x47 to 0x64 is the one opcode its mnemonic names.
proof fn lemma_mnemonic_code_2(op: u8)
    requires
        is_defined(op),
        0x47 <= op <= 0x64,
    ensures
        opcode_with_code(name_code(opcode_mnemonic(op))) == Some(op),
{
    reveal_with_fuel(name_code_upto, 15);
    if op == 0x47u8 {
        reveal_strlit("SELFBALANCE");
        assert(name_code(opcode_mnemonic(op)) == 98631033266256731152837);
    } else if op == 0x48u8 {
        reveal_strlit("BASEFEE");
        assert(name_code(opcode_mnemonic(op)) == 292526878728901);
    } else if op == 0x49u8 {
        reveal_strlit("BLOBHASH");
        assert(name_code(opcode_mnemonic(op)) == 37491680748792264);
    } else if op == 0x4au8 {
        reveal_strlit("BLOBBASEFEE");
        assert(name_code(opcode_mnemonic(op)) == 78625753239302909829829);
    } else if op == 0x50u8 {
        reveal_strlit("POP");
        assert(name_code(opcode_mnemonic(op)) == 1320912);
    } else if op == 0x51u8 {
        reveal_strlit("MLOAD");
        assert(name_code(opcode_mnemonic(op)) == 20830216388);
    } else if op == 0x52u8 {
        reveal_strlit("MSTORE");
        assert(name_code(opcode_mnemonic(op)) == 2668157462853);
    } else if op == 0x53u8 {
        reveal_strlit("MSTORE8");
        assert(name_code(opcode_mnemonic(op)) == 341524155245240);
    } else if op == 0x54u8 {
        reveal_strlit("SLOAD");
        assert(name_code(opcode_mnemonic(op)) == 22440829124);
    } else if op == 0x55u8 {
        reveal_strlit("SSTORE");
        assert(name_code(opcode_mnemonic(op)) == 2874315893061);
    } else if op == 0x56u8 {
        reveal_strlit("JUMP");
        assert(name_code(opcode_mnemonic(op)) == 156591824);
    } else if op == 0x57u8 {
        reveal_strlit("JUMPI");
        assert(name_code(opcode_mnemonic(op)) == 20043753545);
    } else if op == 0x58u8 {
        reveal_strlit("PC");
        assert(name_code(opcode_mnemonic(op)) == 10307);
    } else if op == 0x59u8 {
        reveal_strlit("MSIZE");
        assert(name_code(opcode_mnemonic(op)) == 20844801349);
    } else if op == 0x5au8 {
        reveal_strlit("GAS");
        assert(name_code(opcode_mnemonic(op)) == 1171667);
    } else if op == 0x5bu8 {
        reveal_strlit("JUMPDEST");
        assert(name_code(opcode_mnemonic(op)) == 42034797825059284);
    } else if op == 0x5cu8 {
        reveal_strlit("TLOAD");
        assert(name_code(opcode_mnemonic(op)) == 22709264580);
    } else if op == 0x5du8 {
        reveal_strlit("TSTORE");
        assert(name_code(opcode_mnemonic(op)) == 2908675631429);
    } else if op == 0x5eu8 {
        reveal_strlit("MCOPY");
        assert(name_code(opcode_mnemonic(op)) == 20811343961);
    } else if op == 0x5fu8 {
        reveal_strlit("PUSH0");
        assert(name_code(opcode_mnemonic(op)) == 21654463536);
    } else if op == 0x60u8 {
        reveal_strlit("PUSH1");
        assert(name_code(opcode_mnemonic(op)) == 21654463537);
    } else if op == 0x61u8 {
        reveal_strlit("PUSH2");
        assert(name_code(opcode_mnemonic(op)) == 21654463538);
    } else if op == 0x62u8 {
        reveal_strlit("PUSH3");
        assert(name_code(opcode_mnemonic(op)) == 21654463539);
    } else if op == 0x63u8 {
        reveal_strlit("PUSH4");
        assert(name_code(opcode_mnemonic(op)) == 21654463540);
    } else if op == 0x64u8 {
        reveal_strlit("PUSH5");
        assert(name_code(opcode_mnemonic(op)) == 21654463541);
    }
}

/// Each defined opcode from 0x65 to 0x7d is the one opcode its mnemonic names.
proof fn lemma_mnemonic_code_3(op: u8)
    requires
        is_defined(op),
        0x65 <= op <= 0x7d,
    ensures
        opcode_with_code(name_code(opcode_mnemonic(op))) == Some(op),
{
    reveal_with_fuel(name_code_upto, 15);
    if op == 0x65u8 {
        reveal_strlit("PUSH6");
        assert(name_code(opcode_mnemonic(op)) == 21654463542);
    } else if op == 0x66u8 {
        reveal_strlit("PUSH7");
        assert(name_code(opcode_mnemonic(op)) == 21654463543);
    } else if op == 0x67u8 {
        reveal_strlit("PUSH8");
        assert(name_code(opcode_mnemonic(op)) == 21654463544);
    } else if op == 0x68u8 {
        reveal_strlit("PUSH9");
        assert(name_code(opcode_mnemonic(op)) == 21654463545);
    } else if op == 0x69u8 {
        reveal_strlit("PUSH10");
        assert(name_code(opcode_mnemonic(op)) == 2771771332784);
    } else if op == 0x6au8 {
        reveal_strlit("PUSH11");
        assert(name_code(opcode_mnemonic(op)) == 2771771332785);
    } else if op == 0x6bu8 {
        reveal_strlit("PUSH12");
        assert(name_code(opcode_mnemonic(op)) == 2771771332786);
    } else if op == 0x6cu8 {
        reveal_strlit("PUSH13");
        assert(name_code(opcode_mnemonic(op)) == 2771771332787);
    } else if op == 0x6du8 {
        reveal_strlit("PUSH14");
        assert(name_code(opcode_mnemonic(op)) == 2771771332788);
    } else if op == 0x6eu8 {
        reveal_strlit("PUSH15");
        assert(name_code(opcode_mnemonic(op)) == 2771771332789);
    } else if op == 0x6fu8 {
        reveal_strlit("PUSH16");
        assert(name_code(opcode_mnemonic(op)) == 2771771332790);
    } else if op == 0x70u8 {
        reveal_strlit("PUSH17");
        assert(name_code(opcode_mnemonic(op)) == 2771771332791);
    } else if op == 0x71u8 {
        reveal_strlit("PUSH18");
        assert(name_code(opcode_mnemonic(op)) == 2771771332792);
    } else if op == 0x72u8 {
        reveal_strlit("PUSH19");
        assert(name_code(opcode_mnemonic(op)) == 2771771332793);
    } else if op == 0x73u8 {
        reveal_strlit("PUSH20");
        assert(name_code(opcode_mnemonic(op)) == 2771771332912);
    } else if op == 0x74u8 {
        reveal_strlit("PUSH21");
        assert(name_code(opcode_mnemonic(op)) == 2771771332913);
    } else if op == 0x75u8 {
        reveal_strlit("PUSH22");
        assert(name_code(opcode_mnemonic(op)) == 2771771332914);
    } else if op == 0x76u8 {
        reveal_strlit("PUSH23");
        assert(name_code(opcode_mnemonic(op)) == 2771771332915);
    } else if op == 0x77u8 {
        reveal_strlit("PUSH24");
        assert(name_code(opcode_mnemonic(op)) == 2771771332916);
    } else if op == 0x78u8 {
        reveal_strlit("PUSH25");
        assert(name_code(opcode_mnemonic(op)) == 2771771332917);
    } else if op == 0x79u8 {
        reveal_strlit("PUSH26");
        assert(name_code(opcode_mnemonic(op)) == 2771771332918);
    } else if op == 0x7au8 {
        reveal_strlit("PUSH27");
        assert(name_code(opcode_mnemonic(op)) == 2771771332919);
    } else if op == 0x7bu8 {
        reveal_strlit("PUSH28");
        assert(name_code(opcode_mnemonic(op)) == 2771771332920);
    } else if op == 0x7cu8 {
        reveal_strlit("PUSH29");
        assert(name_code(opcode_mnemonic(op)) == 2771771332921);
    } else if op == 0x7du8 {
        reveal_strlit("PUSH30");
        assert(name_code(opcode_mnemonic(op)) == 2771771333040);
    }
}

/// Each defined opcode from 0x7e to 0x96 is the one opcode its mnemonic names.
proof fn lemma_mnemonic_code_4(op: u8)
    requires
        is_defined(op),
        0x7e <= op <= 0x96,
    ensures
        opcode_with_code(name_code(opcode_mnemonic(op))) == Some(op),
{
    reveal_with_fuel(name_code_upto, 15);
    if op == 0x7eu8 {
        reveal_strlit("PUSH31");
        assert(name_code(opcode_mnemonic(op)) == 2771771333041);
    } else if op == 0x7fu8 {
        reveal_strlit("PUSH32");
        assert(name_code(opcode_mnemonic(op)) == 2771771333042);
    } else if op == 0x80u8 {
        reveal_strlit("DUP1");
        assert(name_code(opcode_mnemonic(op)) == 144009265);
    } else if op == 0x81u8 {
        reveal_strlit("DUP2");
        assert(name_code(opcode_mnemonic(op)) == 144009266);
    } else if op == 0x82u8 {
        reveal_strlit("DUP3");
        assert(name_code(opcode_mnemonic(op)) == 144009267);
    } else if op == 0x83u8 {
        reveal_strlit("DUP4");
        assert(name_code(opcode_mnemonic(op)) == 144009268);
    } else if op == 0x84u8 {
        reveal_strlit("DUP5");
        assert(name_code(opcode_mnemonic(op)) == 144009269);
    } else if op == 0x85u8 {
        reveal_strlit("DUP6");
        assert(name_code(opcode_mnemonic(op)) == 144009270);
    } else if op == 0x86u8 {
        reveal_strlit("DUP7");
        assert(name_code(opcode_mnemonic(op)) == 144009271);
    } else if op == 0x87u8 {
        reveal_strlit("DUP8");
        assert(name_code(opcode_mnemonic(op)) == 144009272);
    } else if op == 0x88u8 {
        reveal_strlit("DUP9");
        assert(name_code(opcode_mnemonic(op)) == 144009273);
    } else if op == 0x89u8 {
        reveal_strlit("DUP10");
        assert(name_code(opcode_mnemonic(op)) == 18433185968);
    } else if op == 0x8au8 {
        reveal_strlit("DUP11");
        assert(name_code(opcode_mnemonic(op)) == 18433185969);
    } else if op == 0x8bu8 {
        reveal_strlit("DUP12");
        assert(name_code(opcode_mnemonic(op)) == 18433185970);
    } else if op == 0x8cu8 {
        reveal_strlit("DUP13");
        assert(name_code(opcode_mnemonic(op)) == 18433185971);
    } else if op == 0x8du8 {
        reveal_strlit("DUP14");
        assert(name_code(opcode_mnemonic(op)) == 18433185972);
    } else if op == 0x8eu8 {
        reveal_strlit("DUP15");
        assert(name_code(opcode_mnemonic(op)) == 18433185973);
    } else if op == 0x8fu8 {
        reveal_strlit("DUP16");
        assert(name_code(opcode_mnemonic(op)) == 18433185974);
    } else if op == 0x90u8 {
        reveal_strlit("SWAP1");
        assert(name_code(opcode_mnemonic(op)) == 22463670321);
    } else if op == 0x91u8 {
        reveal_strlit("SWAP2");
        assert(name_code(opcode_mnemonic(op)) == 22463670322);
    } else if op == 0x92u8 {
        reveal_strlit("SWAP3");
        assert(name_code(opcode_mnemonic(op)) == 22463670323);
    } else if op == 0x93u8 {
        reveal_strlit("SWAP4");
        assert(name_code(opcode_mnemonic(op)) == 22463670324);
    } else if op == 0x94u8 {
        reveal_strlit("SWAP5");
        assert(name_code(opcode_mnemonic(op)) == 22463670325);
    } else if op == 0x95u8 {
        reveal_strlit("SWAP6");
        assert(name_code(opcode_mnemonic(op)) == 22463670326);
    } else if op == 0x96u8 {
        reveal_strlit("SWAP7");
        assert(name_code(opcode_mnemonic(op)) == 22463670327);
    }
}

/// Each defined opcode from 0x97 to 0xff is the one opcode its mnemonic names.
proof fn lemma_mnemonic_code_5(op: u8)
    requires
        is_defined(op),
        0x97 <= op <= 0xff,
    ensures
        opcode_with_code(name_code(opcode_mnemonic(op))) == Some(op),
{
    reveal_with_fuel(name_code_upto, 15);
    if op == 0x97u8 {
        reveal_strlit("SWAP8");
        assert(name_code(opcode_mnemonic(op)) == 22463670328);
    } else if op == 0x98u8 {
        reveal_strlit("SWAP9");
        assert(name_code(opcode_mnemonic(op)) == 22463670329);
    } else if op == 0x99u8 {
        reveal_strlit("SWAP10");
        assert(name_code(opcode_mnemonic(op)) == 2875349801136);
    } else if op == 0x9au8 {
        reveal_strlit("SWAP11");
        assert(name_code(opcode_mnemonic(op)) == 2875349801137);
    } else if op == 0x9bu8 {
        reveal_strlit("SWAP12");
        assert(name_code(opcode_mnemonic(op)) == 2875349801138);
    } else if op == 0x9cu8 {
        reveal_strlit("SWAP13");
        assert(name_code(opcode_mnemonic(op)) == 2875349801139);
    } else if op == 0x9du8 {
        reveal_strlit("SWAP14");
        assert(name_code(opcode_mnemonic(op)) == 2875349801140);
    } else if op == 0x9eu8 {
        reveal_strlit("SWAP15");
        assert(name_code(opcode_mnemonic(op)) == 2875349801141);
    } else if op == 0x9fu8 {
        reveal_strlit("SWAP16");
        assert(name_code(opcode_mnemonic(op)) == 2875349801142);
    } else if op == 0xa0u8 {
        reveal_strlit("LOG0");
        assert(name_code(opcode_mnemonic(op)) == 160687024);
    } else if op == 0xa1u8 {
        reveal_strlit("LOG1");
        assert(name_code(opcode_mnemonic(op)) == 160687025);
    } else if op == 0xa2u8 {
        reveal_strlit("LOG2");
        assert(name_code(opcode_mnemonic(op)) == 160687026);
    } else if op == 0xa3u8 {
        reveal_strlit("LOG3");
        assert(name_code(opcode_mnemonic(op)) == 160687027);
    } else if op == 0xa4u8 {
        reveal_strlit("LOG4");
        assert(name_code(opcode_mnemonic(op)) == 160687028);
    } else if op == 0xf0u8 {
        reveal_strlit("CREATE");
        assert(name_code(opcode_mnemonic(op)) == 2324259957317);
    } else if op == 0xf1u8 {
        reveal_strlit("CALL");
        assert(name_code(opcode_mnemonic(op)) == 141583948);
    } else if op == 0xf2u8 {
        reveal_strlit("CALLCODE");
        assert(name_code(opcode_mnemonic(op)) == 38006151785472581);
    } else if op == 0xf3u8 {
        reveal_strlit("RETURN");
        assert(name_code(opcode_mnemonic(op)) == 2836198156622);
    } else if op == 0xf4u8 {
        reveal_strlit("DELEGATECALL");
        assert(name_code(opcode_mnemonic(op)) == 10358036277060863542715980);
    } else if op == 0xf5u8 {
        reveal_strlit("CREATE2");
        assert(name_code(opcode_mnemonic(op)) == 297505274536626);
    } else if op == 0xfau8 {
        reveal_strlit("STATICCALL");
        assert(name_code(opcode_mnemonic(op)) == 771629680667399317068);
    } else if op == 0xfdu8 {
        reveal_strlit("REVERT");
        assert(name_code(opcode_mnemonic(op)) == 2836202088788);
    } else if op == 0xfeu8 {
        reveal_strlit("INVALID");
        assert(name_code(opcode_mnemonic(op)) == 323760677921988);
    } else if op == 0xffu8 {
        reveal_strlit("SELFDESTRUCT");
        assert(name_code(opcode_mnemonic(op)) == 12624772259224599307575764);
    }
}

/// Each defined opcode is the one opcode its mnemonic names.
proof fn lemma_mnemonic_code(op: u8)
    requires
        is_defined(op),
    ensures
        opcode_with_code(name_code(opcode_mnemonic(op))) == Some(op),
{
    if op <= 0x1c {
        lemma_mnemonic_code_0(op);
    } else if op <= 0x46 {
        lemma_mnemonic_code_1(op);
    } else if op <= 0x64 {
        lemma_mnemonic_code_2(op);
    } else if op <= 0x7d {
        lemma_mnemonic_code_3(op);
    } else if op <= 0x96 {
        lemma_mnemonic_code_4(op);
    } else if op <= 0xff {
        lemma_mnemonic_code_5(op);
    }
}

/// Every defined opcode has a mnemonic of its own: two distinct defined opcodes
/// never share one, and none is named "UNKNOWN", the name of every byte that is
/// not an opcode.
pub proof fn lemma_mnemonics_distinct(a: u8, b: u8)
    requires
        is_defined(a),
        is_defined(b),
        a != b,
    ensures
        opcode_mnemonic(a) != opcode_mnemonic(b),
        opcode_mnemonic(a) != "UNKNOWN"@,
{
    lemma_mnemonic_code(a);
    lemma_mnemonic_code(b);
    reveal_with_fuel(name_code_upto, 8);
    reveal_strlit("UNKNOWN");
    assert(name_code("UNKNOWN"@) == 376534310579150);
}

/// A byte that is not an opcode is named "UNKNOWN".
pub proof fn lemma_undefined_unknown(op: u8)
    requires
        !is_defined(op),
    ensures
        opcode_mnemonic(op) == "UNKNOWN"@,
{
}


/// PUSHn, DUPn, SWAPn and LOGn are named by family and decimal `n`, for `n` from
/// 0 to 7.
proof fn lemma_numbered_mnemonics_0(n: nat)
    requires
        0 <= n <= 7,
    ensures
        1 <= n <= 32 ==> opcode_mnemonic((0x5f + n) as u8) == "PUSH"@ + dec_text(n),
        1 <= n <= 16 ==> opcode_mnemonic((0x7f + n) as u8) == "DUP"@ + dec_text(n),
        1 <= n <= 16 ==> opcode_mnemonic((0x8f + n) as u8) == "SWAP"@ + dec_text(n),
        n <= 4 ==> opcode_mnemonic((0xa0 + n) as u8) == "LOG"@ + dec_text(n),
{
    reveal_strlit("PUSH");
    reveal_strlit("DUP");
    reveal_strlit("SWAP");
    reveal_strlit("LOG");
    reveal_with_fuel(dec_text, 3);
    if n == 0 {
        reveal_strlit("LOG0");
        assert(opcode_mnemonic(0xa0u8) =~= "LOG"@ + dec_text(0));
    } else if n == 1 {
        reveal_strlit("PUSH1");
        assert(opcode_mnemonic(0x60u8) =~= "PUSH"@ + dec_text(1));
        reveal_strlit("DUP1");
        assert(opcode_mnemonic(0x80u8) =~= "DUP"@ + dec_text(1));
        reveal_strlit("SWAP1");
        assert(opcode_mnemonic(0x90u8) =~= "SWAP"@ + dec_text(1));
        reveal_strlit("LOG1");
        assert(opcode_mnemonic(0xa1u8) =~= "LOG"@ + dec_text(1));
    } else if n == 2 {
        reveal_strlit("PUSH2");
        assert(opcode_mnemonic(0x61u8) =~= "PUSH"@ + dec_text(2));
        reveal_strlit("DUP2");
        assert(opcode_mnemonic(0x81u8) =~= "DUP"@ + dec_text(2));
        reveal_strlit("SWAP2");
        assert(opcode_mnemonic(0x91u8) =~= "SWAP"@ + dec_text(2));
        reveal_strlit("LOG2");
        assert(opcode_mnemonic(0xa2u8) =~= "LOG"@ + dec_text(2));
    } else if n == 3 {
        reveal_strlit("PUSH3");
        assert(opcode_mnemonic(0x62u8) =~= "PUSH"@ + dec_text(3));
        reveal_strlit("DUP3");
        assert(opcode_mnemonic(0x82u8) =~= "DUP"@ + dec_text(3));
        reveal_strlit("SWAP3");
        assert(opcode_mnemonic(0x92u8) =~= "SWAP"@ + dec_text(3));
        reveal_strlit("LOG3");
        assert(opcode_mnemonic(0xa3u8) =~= "LOG"@ + dec_text(3));
    } else if n == 4 {
        reveal_strlit("PUSH4");
        assert(opcode_mnemonic(0x63u8) =~= "PUSH"@ + dec_text(4));
        reveal_strlit("DUP4");
        assert(opcode_mnemonic(0x83u8) =~= "DUP"@ + dec_text(4));
        reveal_strlit("SWAP4");
        assert(opcode_mnemonic(0x93u8) =~= "SWAP"@ + dec_text(4));
        reveal_strlit("LOG4");
        assert(opcode_mnemonic(0xa4u8) =~= "LOG"@ + dec_text(4));
    } else if n == 5 {
        reveal_strlit("PUSH5");
        assert(opcode_mnemonic(0x64u8) =~= "PUSH"@ + dec_text(5));
        reveal_strlit("DUP5");
        assert(opcode_mnemonic(0x84u8) =~= "DUP"@ + dec_text(5));
        reveal_strlit("SWAP5");
        assert(opcode_mnemonic(0x94u8) =~= "SWAP"@ + dec_text(5));
    } else if n == 6 {
        reveal_strlit("PUSH6");
        assert(opcode_mnemonic(0x65u8) =~= "PUSH"@ + dec_text(6));
        reveal_strlit("DUP6");
        assert(opcode_mnemonic(0x85u8) =~= "DUP"@ + dec_text(6));
        reveal_strlit("SWAP6");
        assert(opcode_mnemonic(0x95u8) =~= "SWAP"@ + dec_text(6));
    } else if n == 7 {
        reveal_strlit("PUSH7");
        assert(opcode_mnemonic(0x66u8) =~= "PUSH"@ + dec_text(7));
        reveal_strlit("DUP7");
        assert(opcode_mnemonic(0x86u8) =~= "DUP"@ + dec_text(7));
        reveal_strlit("SWAP7");
        assert(opcode_mnemonic(0x96u8) =~= "SWAP"@ + dec_text(7));
    }
}

/// PUSHn, DUPn, SWAPn and LOGn are named by family and decimal `n`, for `n` from
/// 8 to 15.
proof fn lemma_numbered_mnemonics_1(n: nat)
    requires
        8 <= n <= 15,
    ensures
        1 <= n <= 32 ==> opcode_mnemonic((0x5f + n) as u8) == "PUSH"@ + dec_text(n),
        1 <= n <= 16 ==> opcode_mnemonic((0x7f + n) as u8) == "DUP"@ + dec_text(n),
        1 <= n <= 16 ==> opcode_mnemonic((0x8f + n) as u8) == "SWAP"@ + dec_text(n),
        n <= 4 ==> opcode_mnemonic((0xa0 + n) as u8) == "LOG"@ + dec_text(n),
{
    reveal_strlit("PUSH");
    reveal_strlit("DUP");
    reveal_strlit("SWAP");
    reveal_strlit("LOG");
    reveal_with_fuel(dec_text, 3);
    if n == 8 {
        reveal_strlit("PUSH8");
        assert(opcode_mnemonic(0x67u8) =~= "PUSH"@ + dec_text(8));
        reveal_strlit("DUP8");
        assert(opcode_mnemonic(0x87u8) =~= "DUP"@ + dec_text(8));
        reveal_strlit("SWAP8");
        assert(opcode_mnemonic(0x97u8) =~= "SWAP"@ + dec_text(8));
    } else if n == 9 {
        reveal_strlit("PUSH9");
        assert(opcode_mnemonic(0x68u8) =~= "PUSH"@ + dec_text(9));
        reveal_strlit("DUP9");
        assert(opcode_mnemonic(0x88u8) =~= "DUP"@ + dec_text(9));
        reveal_strlit("SWAP9");
        assert(opcode_mnemonic(0x98u8) =~= "SWAP"@ + dec_text(9));
    } else if n == 10 {
        reveal_strlit("PUSH10");
        assert(opcode_mnemonic(0x69u8) =~= "PUSH"@ + dec_text(10));
        reveal_strlit("DUP10");
        assert(opcode_mnemonic(0x89u8) =~= "DUP"@ + dec_text(10));
        reveal_strlit("SWAP10");
        assert(opcode_mnemonic(0x99u8) =~= "SWAP"@ + dec_text(10));
    } else if n == 11 {
        reveal_strlit("PUSH11");
        assert(opcode_mnemonic(0x6au8) =~= "PUSH"@ + dec_text(11));
        reveal_strlit("DUP11");
        assert(opcode_mnemonic(0x8au8) =~= "DUP"@ + dec_text(11));
        reveal_strlit("SWAP11");
        assert(opcode_mnemonic(0x9au8) =~= "SWAP"@ + dec_text(11));
    } else if n == 12 {
        reveal_strlit("PUSH12");
        assert(opcode_mnemonic(0x6bu8) =~= "PUSH"@ + dec_text(12));
        reveal_strlit("DUP12");
        assert(opcode_mnemonic(0x8bu8) =~= "DUP"@ + dec_text(12));
        reveal_strlit("SWAP12");
        assert(opcode_mnemonic(0x9bu8) =~= "SWAP"@ + dec_text(12));
    } else if n == 13 {
        reveal_strlit("PUSH13");
        assert(opcode_mnemonic(0x6cu8) =~= "PUSH"@ + dec_text(13));
        reveal_strlit("DUP13");
        assert(opcode_mnemonic(0x8cu8) =~= "DUP"@ + dec_text(13));
        reveal_strlit("SWAP13");
        assert(opcode_mnemonic(0x9cu8) =~= "SWAP"@ + dec_text(13));
    } else if n == 14 {
        reveal_strlit("PUSH14");
        assert(opcode_mnemonic(0x6du8) =~= "PUSH"@ + dec_text(14));
        reveal_strlit("DUP14");
        assert(opcode_mnemonic(0x8du8) =~= "DUP"@ + dec_text(14));
        reveal_strlit("SWAP14");
        assert(opcode_mnemonic(0x9du8) =~= "SWAP"@ + dec_text(14));
    } else if n == 15 {
        reveal_strlit("PUSH15");
        assert(opcode_mnemonic(0x6eu8) =~= "PUSH"@ + dec_text(15));
        reveal_strlit("DUP15");
        assert(opcode_mnemonic(0x8eu8) =~= "DUP"@ + dec_text(15));
        reveal_strlit("SWAP15");
        assert(opcode_mnemonic(0x9eu8) =~= "SWAP"@ + dec_text(15));
    }
}

/// PUSHn, DUPn, SWAPn and LOGn are named by family and decimal `n`, for `n` from
/// 16 to 23.
proof fn lemma_numbered_mnemonics_2(n: nat)
    requires
        16 <= n <= 23,
    ensures
        1 <= n <= 32 ==> opcode_mnemonic((0x5f + n) as u8) == "PUSH"@ + dec_text(n),
        1 <= n <= 16 ==> opcode_mnemonic((0x7f + n) as u8) == "DUP"@ + dec_text(n),
        1 <= n <= 16 ==> opcode_mnemonic((0x8f + n) as u8) == "SWAP"@ + dec_text(n),
        n <= 4 ==> opcode_mnemonic((0xa0 + n) as u8) == "LOG"@ + dec_text(n),
{
    reveal_strlit("PUSH");
    reveal_strlit("DUP");
    reveal_strlit("SWAP");
    reveal_strlit("LOG");
    reveal_with_fuel(dec_text, 3);
    if n == 16 {
        reveal_strlit("PUSH16");
        assert(opcode_mnemonic(0x6fu8) =~= "PUSH"@ + dec_text(16));
        reveal_strlit("DUP16");
        assert(opcode_mnemonic(0x8fu8) =~= "DUP"@ + dec_text(16));
        reveal_strlit("SWAP16");
        assert(opcode_mnemonic(0x9fu8) =~= "SWAP"@ + dec_text(16));
    } else if n == 17 {
        reveal_strlit("PUSH17");
        assert(opcode_mnemonic(0x70u8) =~= "PUSH"@ + dec_text(17));
    } else if n == 18 {
        reveal_strlit("PUSH18");
        assert(opcode_mnemonic(0x71u8) =~= "PUSH"@ + dec_text(18));
    } else if n == 19 {
        reveal_strlit("PUSH19");
        assert(opcode_mnemonic(0x72u8) =~= "PUSH"@ + dec_text(19));
    } else if n == 20 {
        reveal_strlit("PUSH20");
        assert(opcode_mnemonic(0x73u8) =~= "PUSH"@ + dec_text(20));
    } else if n == 21 {
        reveal_strlit("PUSH21");
        assert(opcode_mnemonic(0x74u8) =~= "PUSH"@ + dec_text(21));
    } else if n == 22 {
        reveal_strlit("PUSH22");
        assert(opcode_mnemonic(0x75u8) =~= "PUSH"@ + dec_text(22));
    } else if n == 23 {
        reveal_strlit("PUSH23");
        assert(opcode_mnemonic(0x76u8) =~= "PUSH"@ + dec_text(23));
    }
}

/// PUSHn, DUPn, SWAPn and LOGn are named by family and decimal `n`, for `n` from
/// 24 to 32.
proof fn lemma_numbered_mnemonics_3(n: nat)
    requires
        24 <= n <= 32,
    ensures
        1 <= n <= 32 ==> opcode_mnemonic((0x5f + n) as u8) == "PUSH"@ + dec_text(n),
        1 <= n <= 16 ==> opcode_mnemonic((0x7f + n) as u8) == "DUP"@ + dec_text(n),
        1 <= n <= 16 ==> opcode_mnemonic((0x8f + n) as u8) == "SWAP"@ + dec_text(n),
        n <= 4 ==> opcode_mnemonic((0xa0 + n) as u8) == "LOG"@ + dec_text(n),
{
    reveal_strlit("PUSH");
    reveal_strlit("DUP");
    reveal_strlit("SWAP");
    reveal_strlit("LOG");
    reveal_with_fuel(dec_text, 3);
    if n == 24 {
        reveal_strlit("PUSH24");
        assert(opcode_mnemonic(0x77u8) =~= "PUSH"@ + dec_text(24));
    } else if n == 25 {
        reveal_strlit("PUSH25");
        assert(opcode_mnemonic(0x78u8) =~= "PUSH"@ + dec_text(25));
    } else if n == 26 {
        reveal_strlit("PUSH26");
        assert(opcode_mnemonic(0x79u8) =~= "PUSH"@ + dec_text(26));
    } else if n == 27 {
        reveal_strlit("PUSH27");
        assert(opcode_mnemonic(0x7au8) =~= "PUSH"@ + dec_text(27));
    } else if n == 28 {
        reveal_strlit("PUSH28");
        assert(opcode_mnemonic(0x7bu8) =~= "PUSH"@ + dec_text(28));
    } else if n == 29 {
        reveal_strlit("PUSH29");
        assert(opcode_mnemonic(0x7cu8) =~= "PUSH"@ + dec_text(29));
    } else if n == 30 {
        reveal_strlit("PUSH30");
        assert(opcode_mnemonic(0x7du8) =~= "PUSH"@ + dec_text(30));
    } else if n == 31 {
        reveal_strlit("PUSH31");
        assert(opcode_mnemonic(0x7eu8) =~= "PUSH"@ + dec_text(31));
    } else if n == 32 {
        reveal_strlit("PUSH32");
        assert(opcode_mnemonic(0x7fu8) =~= "PUSH"@ + dec_text(32));
    }
}

/// PUSHn (0x5f + n, n from 1 to 32), DUPn (0x7f + n, n from 1 to 16), SWAPn
/// (0x8f + n, n from 1 to 16) and LOGn (0xa0 + n, n from 0 to 4) are named by
/// their family followed by `n` in decimal.
pub proof fn lemma_numbered_mnemonics(n: nat)
    ensures
        1 <= n <= 32 ==> opcode_mnemonic((0x5f + n) as u8) == "PUSH"@ + dec_text(n),
        1 <= n <= 16 ==> opcode_mnemonic((0x7f + n) as u8) == "DUP"@ + dec_text(n),
        1 <= n <= 16 ==> opcode_mnemonic((0x8f + n) as u8) == "SWAP"@ + dec_text(n),
        n <= 4 ==> opcode_mnemonic((0xa0 + n) as u8) == "LOG"@ + dec_text(n),
{
    if n <= 7 {
        lemma_numbered_mnemonics_0(n);
    } else if n <= 15 {
        lemma_numbered_mnemonics_1(n);
    } else if n <= 23 {
        lemma_numbered_mnemonics_2(n);
    } else if n <= 32 {
        lemma_numbered_mnemonics_3(n);
    }
}

} // verus!
