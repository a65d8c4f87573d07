//! The bytecode interpreter: an EVM instance runs code step by step, charging gas
//! and dispatching each opcode, until it stops, returns, reverts or fails.

use vstd::prelude::*;
use crate::evm::gas::{opcode_gas_cost, opcode_base_gas};
use crate::evm::host::{Host, NullHost};
use crate::evm::memory::Memory;
use crate::evm::opcodes::control::analyze_jumpdests_bitmap;
use crate::evm::opcodes::exec::{
    self, ContextView, ExecContext, StepOutcome, StorageWriteInfo, WarmAddresses, WarmSlots,
    is_defined, opcode_effect, refund_bound,
    lemma_base_exceeds_refund,
};
use crate::evm::stack::Stack;
use crate::state::{AssocList, State};
use crate::types::{Address, U256, bytes_to_vec};

pub use crate::evm::error::EvmError;

verus! {

// =============================================================================
// Results and contexts
// =============================================================================

/// A log entry emitted by LOG0–LOG4.
#[derive(Debug, Clone, PartialEq, Eq)]
pub struct LogEntry {
    /// The account that emitted the log.
    pub address: Address,
    /// Topics, in order.
    pub topics: Vec<crate::types::Hash>,
    /// Data.
    pub data: Vec<u8>,
}

/// The outcome of a completed execution.
#[derive(Debug)]
pub struct ExecutionResult {
    /// Whether execution completed (always true for a returned result).
    pub success: bool,
    /// Gas used: the gas limit less the gas left.
    pub gas_used: u64,
    /// Refund accumulated by SSTORE clearing storage.
    pub gas_refund: u64,
    /// Data returned by RETURN (empty otherwise).
    pub return_data: Vec<u8>,
    /// Logs emitted, in order.
    pub logs: Vec<LogEntry>,
    /// The final stack.
    pub stack: Stack,
    /// The final memory.
    pub memory: Memory,
    /// A gas trace, when tracing was enabled.
    pub gas_trace: Option<crate::evm::trace::GasTrace>,
}

/// Block context for the environment opcodes.
#[derive(Debug, Clone, Copy)]
pub struct BlockContext {
    /// Block number.
    pub number: U256,
    /// Block timestamp.
    pub timestamp: U256,
    /// Beneficiary (coinbase).
    pub coinbase: Address,
    /// Difficulty (PREVRANDAO after the merge).
    pub difficulty: U256,
    /// Block gas limit.
    pub gas_limit: U256,
    /// Chain identifier.
    pub chain_id: U256,
    /// Base fee per gas (EIP-1559).
    pub base_fee: U256,
    /// Excess blob gas (EIP-4844), when the block has it.
    pub excess_blob_gas: Option<U256>,
}

impl Default for BlockContext {
    /// Block 0 at time 0, zero coinbase, gas limit 30 000 000, chain 1, no base
    /// fee and no blob gas.
    fn default() -> (r: BlockContext)
        ensures
            r.number@ == 0,
            r.timestamp@ == 0,
            r.coinbase@ == Seq::new(20, |i: int| 0u8),
            r.difficulty@ == 0,
            r.gas_limit@ == 30_000_000,
            r.chain_id@ == 1,
            r.base_fee@ == 0,
            r.excess_blob_gas is None,
    {
        let r = BlockContext {
            number: U256::zero(),
            timestamp: U256::zero(),
            coinbase: Address::zero(),
            difficulty: U256::zero(),
            gas_limit: U256::from_u64(30_000_000),
            chain_id: U256::one(),
            base_fee: U256::zero(),
            excess_blob_gas: None,
        };
        proof {
            assert(r.coinbase@ =~= Seq::new(20, |i: int| 0u8));
        }
        r
    }
}

/// Transaction context for the environment opcodes.
#[derive(Debug, Clone)]
pub struct TxContext {
    /// Sender of the transaction.
    pub origin: Address,
    /// Gas price.
    pub gas_price: U256,
    /// Versioned hashes of the transaction's blobs (EIP-4844).
    pub blob_versioned_hashes: Vec<crate::types::Hash>,
}

impl Default for TxContext {
    /// Zero origin, zero gas price, no blobs.
    fn default() -> (r: TxContext)
        ensures
            r.origin@ == Seq::new(20, |i: int| 0u8),
            r.gas_price@ == 0,
            r.blob_versioned_hashes@.len() == 0,
    {
        let r = TxContext {
            origin: Address::zero(),
            gas_price: U256::zero(),
            blob_versioned_hashes: Vec::new(),
        };
        proof {
            assert(r.origin@ =~= Seq::new(20, |i: int| 0u8));
        }
        r
    }
}

/// Two transaction contexts hold the same sender, gas price and blob hashes.
pub open spec fn same_tx_ctx(a: TxContext, b: TxContext) -> bool {
    a.origin == b.origin && a.gas_price == b.gas_price && a.blob_versioned_hashes@
        == b.blob_versioned_hashes@
}

impl TxContext {
    /// A copy of the context, for a nested frame of the same transaction.
    pub fn duplicate(&self) -> (r: TxContext)
        ensures
            same_tx_ctx(r, *self),
    {
        let mut hashes: Vec<crate::types::Hash> = Vec::new();
        let mut i: usize = 0;
        while i < self.blob_versioned_hashes.len()
            invariant
                i <= self.blob_versioned_hashes@.len(),
                hashes@ == self.blob_versioned_hashes@.subrange(0, i as int),
            decreases self.blob_versioned_hashes@.len() - i,
        {
            hashes.push(self.blob_versioned_hashes[i]);
            i = i + 1;
            proof {
                assert(hashes@ =~= self.blob_versioned_hashes@.subrange(0, i as int));
            }
        }
        proof {
            assert(hashes@ =~= self.blob_versioned_hashes@);
        }
        TxContext { origin: self.origin, gas_price: self.gas_price, blob_versioned_hashes: hashes }
    }
}

/// Call context of the executing contract.
#[derive(Debug, Clone)]
pub struct CallContext {
    /// The executing account.
    pub address: Address,
    /// The caller.
    pub caller: Address,
    /// Value sent with the call.
    pub call_value: U256,
    /// Call data.
    pub call_data: Vec<u8>,
}

impl Default for CallContext {
    /// Zero addresses, no value, no data.
    fn default() -> (r: CallContext)
        ensures
            r.address@ == Seq::new(20, |i: int| 0u8),
            r.caller@ == Seq::new(20, |i: int| 0u8),
            r.call_value@ == 0,
            r.call_data@.len() == 0,
    {
        let r = CallContext {
            address: Address::zero(),
            caller: Address::zero(),
            call_value: U256::zero(),
            call_data: Vec::new(),
        };
        proof {
            assert(r.address@ =~= Seq::new(20, |i: int| 0u8));
            assert(r.caller@ =~= Seq::new(20, |i: int| 0u8));
        }
        r
    }
}

// =============================================================================
// The machine
// =============================================================================

/// An EVM instance: the code, the machine state, the contexts, the world state and
/// the host it runs against.
pub struct Evm<S, H> {
    /// The stack.
    pub stack: Stack,
    /// The memory.
    pub memory: Memory,
    /// Gas left.
    pub gas_remaining: u64,
    /// Refund accumulated by SSTORE clearing storage.
    pub gas_refund: u64,
    /// Program counter.
    pub pc: usize,
    /// The code.
    pub code: Vec<u8>,
    /// Whether execution has halted.
    pub stopped: bool,
    /// Return data: of RETURN, or of the last nested call.
    pub return_data: Vec<u8>,
    /// Block context.
    pub block_ctx: BlockContext,
    /// Transaction context.
    pub tx_ctx: TxContext,
    /// Call context.
    pub call_ctx: CallContext,
    /// `jumpdests[i]` holds when `i` is a valid jump destination of the code.
    pub jumpdests: Vec<bool>,
    /// Logs emitted, in order.
    pub logs: Vec<LogEntry>,
    /// The world state.
    pub state: S,
    /// The host.
    pub host: H,
    /// Accounts accessed so far (EIP-2929).
    pub accessed_addresses: WarmAddresses,
    /// Storage slots accessed so far (EIP-2929).
    pub accessed_storage: WarmSlots,
}

/// A byte vector copied from a slice.
fn copy_vec(s: &[u8]) -> (r: Vec<u8>)
    ensures
        r@ == s@,
{
    crate::types::bytes_to_vec(s)
}

/// A copy of a list of logs.
fn copy_logs(logs: &Vec<LogEntry>) -> (r: Vec<LogEntry>)
    ensures
        r@.len() == logs@.len(),
{
    let mut out: Vec<LogEntry> = Vec::new();
    let mut i: usize = 0;
    while i < logs.len()
        invariant
            i <= logs@.len(),
            out@.len() == i,
        decreases logs@.len() - i,
    {
        let e = &logs[i];
        let mut topics: Vec<crate::types::Hash> = Vec::new();
        let mut j: usize = 0;
        while j < e.topics.len()
            invariant
                j <= e.topics@.len(),
                topics@ == e.topics@.subrange(0, j as int),
            decreases e.topics@.len() - j,
        {
            topics.push(e.topics[j]);
            j = j + 1;
            proof {
                assert(topics@ =~= e.topics@.subrange(0, j as int));
            }
        }
        out.push(LogEntry { address: e.address, topics, data: copy_vec(e.data.as_slice()) });
        i = i + 1;
    }
    out
}

/// Whether a machine with this code, program counter, halt flag and gas fails its
/// next step for want of the opcode's base gas.
pub open spec fn starts_out_of_gas(code: Seq<u8>, pc: usize, stopped: bool, gas: u64) -> bool {
    !stopped && pc < code.len() && gas < opcode_base_gas(code[pc as int])
}

/// The default block context: block 0 at time 0, zero coinbase, gas limit
/// 30 000 000, chain 1, no base fee, no blob gas.
pub open spec fn is_default_block(b: BlockContext) -> bool {
    &&& b.number@ == 0
    &&& b.timestamp@ == 0
    &&& b.coinbase@ == Seq::new(20, |i: int| 0u8)
    &&& b.difficulty@ == 0
    &&& b.gas_limit@ == 30_000_000
    &&& b.chain_id@ == 1
    &&& b.base_fee@ == 0
    &&& b.excess_blob_gas is None
}

/// The default transaction context: zero origin and gas price, no blobs.
pub open spec fn is_default_tx(t: TxContext) -> bool {
    &&& t.origin@ == Seq::new(20, |i: int| 0u8)
    &&& t.gas_price@ == 0
    &&& t.blob_versioned_hashes@.len() == 0
}

/// The default call context: zero addresses, no value, no data.
pub open spec fn is_default_call(c: CallContext) -> bool {
    &&& c.address@ == Seq::new(20, |i: int| 0u8)
    &&& c.caller@ == Seq::new(20, |i: int| 0u8)
    &&& c.call_value@ == 0
    &&& c.call_data@.len() == 0
}

/// The context an opcode of machine `m` reads.
pub open spec fn machine_context<S, H>(m: Evm<S, H>) -> ContextView {
    ContextView {
        code: m.code@,
        pc: m.pc,
        jumpdests: m.jumpdests@,
        block_number: m.block_ctx.number,
        block_timestamp: m.block_ctx.timestamp,
        block_coinbase: m.block_ctx.coinbase,
        block_difficulty: m.block_ctx.difficulty,
        block_gas_limit: m.block_ctx.gas_limit,
        block_chain_id: m.block_ctx.chain_id,
        block_base_fee: m.block_ctx.base_fee,
        block_excess_blob_gas: m.block_ctx.excess_blob_gas,
        tx_origin: m.tx_ctx.origin,
        tx_gas_price: m.tx_ctx.gas_price,
        call_address: m.call_ctx.address,
        call_caller: m.call_ctx.caller,
        call_value: m.call_ctx.call_value,
        call_data: m.call_ctx.call_data@,
    }
}

/// Whether the machine has halted: stopped, or its program counter past the code.
pub open spec fn halted<S, H>(m: Evm<S, H>) -> bool {
    m.stopped || m.pc >= m.code@.len()
}

/// One step through an executed opcode: from `m0`, whose opcode's base gas is
/// covered, the opcode runs on the machine with that gas charged, giving `mid`
/// (where only the stack, memory, world state, host, gas, refund, return data and
/// warm sets may differ from `m0`) and the outcome `out`, as `opcode_effect`
/// states; then the outcome moves the program counter, halts, records a log or
/// fails, giving `m1` and the step's result `r`.
pub open spec fn step_via<S: State, H: Host<S>>(
    m0: Evm<S, H>,
    mid: Evm<S, H>,
    out: Result<(StepOutcome, Option<StorageWriteInfo>), EvmError>,
    m1: Evm<S, H>,
    r: Result<(), EvmError>,
) -> bool {
    let op = m0.code@[m0.pc as int];
    &&& mid == (Evm {
        stack: mid.stack,
        memory: mid.memory,
        state: mid.state,
        host: mid.host,
        gas_remaining: mid.gas_remaining,
        gas_refund: mid.gas_refund,
        return_data: mid.return_data,
        accessed_addresses: mid.accessed_addresses,
        accessed_storage: mid.accessed_storage,
        ..m0
    })
    &&& opcode_effect(
        op,
        machine_context(m0),
        m0.host,
        m0.stack@,
        mid.stack@,
        m0.memory@,
        mid.memory@,
        m0.state,
        mid.state,
        (m0.gas_remaining - opcode_base_gas(op)) as u64,
        mid.gas_remaining,
        m0.gas_refund,
        mid.gas_refund,
        m0.return_data@,
        mid.return_data@,
        m0.accessed_addresses.map(),
        mid.accessed_addresses.map(),
        m0.accessed_storage.map(),
        mid.accessed_storage.map(),
        out,
    )
    &&& match out {
        Err(e) => r == Err::<(), EvmError>(e) && m1 == mid,
        Ok((o, w)) => {
            &&& m1.accessed_storage.map() == match w {
                Some((a, k, _)) => mid.accessed_storage.map().insert((a, k), ()),
                None => mid.accessed_storage.map(),
            }
            &&& match o {
                StepOutcome::Continue(adv) => r is Ok && m1 == (Evm {
                    accessed_storage: m1.accessed_storage,
                    pc: (if m0.pc + adv > usize::MAX { usize::MAX as int } else { m0.pc + adv }) as usize,
                    ..mid
                }),
                StepOutcome::Stop => r is Ok && m1 == (Evm {
                    accessed_storage: m1.accessed_storage,
                    stopped: true,
                    pc: (m0.pc + 1) as usize,
                    ..mid
                }),
                StepOutcome::Return(d) => r is Ok && m1 == (Evm {
                    accessed_storage: m1.accessed_storage,
                    stopped: true,
                    pc: (m0.pc + 1) as usize,
                    return_data: d,
                    ..mid
                }),
                StepOutcome::Revert(d) => r == Err::<(), EvmError>(EvmError::Revert(d)) && m1 == (
                Evm { accessed_storage: m1.accessed_storage, ..mid }),
                StepOutcome::Jump(p) => r is Ok && m1 == (Evm {
                    accessed_storage: m1.accessed_storage,
                    pc: p,
                    ..mid
                }),
                StepOutcome::Log(a, t, d) => r is Ok && m1 == (Evm {
                    accessed_storage: m1.accessed_storage,
                    pc: (m0.pc + 1) as usize,
                    logs: m1.logs,
                    ..mid
                }) && m1.logs@ == mid.logs@.push(LogEntry { address: a, topics: t, data: d }),
            }
        },
    }
}

/// What one step does: a halted machine stays halted (marked stopped); a machine
/// that cannot pay its opcode's base gas fails with out-of-gas and is left as it
/// was; otherwise the opcode is executed as `step_via` describes.
pub open spec fn steps_to<S: State, H: Host<S>>(m0: Evm<S, H>, m1: Evm<S, H>, r: Result<(), EvmError>) -> bool {
    if halted(m0) {
        r is Ok && m1 == (Evm { stopped: true, ..m0 })
    } else if m0.gas_remaining < opcode_base_gas(m0.code@[m0.pc as int]) {
        r == Err::<(), EvmError>(EvmError::OutOfGas) && m1 == m0
    } else {
        exists|mid: Evm<S, H>, out: Result<(StepOutcome, Option<StorageWriteInfo>), EvmError>|
            #[trigger] step_via(m0, mid, out, m1, r)
    }
}

/// `m1` is reached from `m0` by `n` successful steps, each from a machine that had
/// not halted.
pub open spec fn reaches<S: State, H: Host<S>>(m0: Evm<S, H>, m1: Evm<S, H>, n: nat) -> bool
    decreases n,
{
    if n == 0 {
        m1 == m0
    } else {
        exists|mid: Evm<S, H>|
            !halted(m0) && #[trigger] steps_to(m0, mid, Ok::<(), EvmError>(())) && reaches(
                mid,
                m1,
                (n - 1) as nat,
            )
    }
}

/// What running does: `Ok` when repeated steps from `m0` reach the halted machine
/// `m1`; an error when repeated steps reach a running machine whose next step
/// fails with it, giving `m1`.
pub open spec fn runs_to<S: State, H: Host<S>>(m0: Evm<S, H>, m1: Evm<S, H>, r: Result<(), EvmError>) -> bool {
    match r {
        Ok(()) => halted(m1) && exists|n: nat| #[trigger] reaches(m0, m1, n),
        Err(e) => exists|n: nat, last: Evm<S, H>|
            #[trigger] reaches(m0, last, n) && !halted(last) && steps_to(last, m1, Err::<(), EvmError>(e)),
    }
}

/// Success or the error of a run, without its result.
pub open spec fn status_of<T>(r: Result<T, EvmError>) -> Result<(), EvmError> {
    match r {
        Ok(_) => Ok(()),
        Err(e) => Err(e),
    }
}

/// One more successful step from a reached running machine is reached too.
pub proof fn lemma_reaches_extend<S: State, H: Host<S>>(m0: Evm<S, H>, m: Evm<S, H>, m1: Evm<S, H>, n: nat)
    requires
        reaches(m0, m, n),
        !halted(m),
        steps_to(m, m1, Ok::<(), EvmError>(())),
    ensures
        reaches(m0, m1, n + 1),
    decreases n,
{
    if n == 0 {
        assert(reaches(m1, m1, 0));
        assert(steps_to(m0, m1, Ok::<(), EvmError>(())));
    } else {
        let mid = choose|mid: Evm<S, H>|
            !halted(m0) && #[trigger] steps_to(m0, mid, Ok::<(), EvmError>(())) && reaches(
                mid,
                m,
                (n - 1) as nat,
            );
        lemma_reaches_extend(mid, m, m1, (n - 1) as nat);
        assert(steps_to(m0, mid, Ok::<(), EvmError>(())));
    }
}

impl<S: State, H: Host<S>> Evm<S, H> {
    /// A machine about to run `code` with `gas_limit` gas: empty stack and memory,
    /// program counter 0, default contexts, nothing warm.
    pub fn new(code: Vec<u8>, gas_limit: u64, state: S, host: H) -> (r: Self)
        ensures
            r.code@ == code@,
            r.gas_remaining == gas_limit,
            r.gas_refund == 0,
            r.pc == 0,
            !r.stopped,
            r.stack@.len() == 0,
            r.memory@.len() == 0,
            r.return_data@.len() == 0,
            r.logs@.len() == 0,
            r.state == state,
            r.jumpdests@.len() == code@.len(),
            forall|i: int|
                0 <= i < code@.len() ==> r.jumpdests@[i]
                    == crate::evm::opcodes::control::valid_jumpdests(code@).contains(i as usize),
            r.accessed_addresses.map() == Map::<Address, ()>::empty(),
            r.accessed_storage.map() == Map::<(Address, U256), ()>::empty(),
            r.host == host,
            is_default_block(r.block_ctx),
            is_default_tx(r.tx_ctx),
            is_default_call(r.call_ctx),
    {
        let jumpdests = analyze_jumpdests_bitmap(code.as_slice());
        Evm {
            stack: Stack::new(),
            memory: Memory::new(),
            gas_remaining: gas_limit,
            gas_refund: 0,
            pc: 0,
            code,
            stopped: false,
            return_data: Vec::new(),
            block_ctx: BlockContext::default(),
            tx_ctx: TxContext::default(),
            call_ctx: CallContext::default(),
            jumpdests,
            logs: Vec::new(),
            state,
            host,
            accessed_addresses: AssocList::new(),
            accessed_storage: AssocList::new(),
        }
    }

    /// Sets the block context.
    pub fn with_block_context(self, block_ctx: BlockContext) -> (r: Self)
        ensures
            r == (Evm { block_ctx, ..self }),
    {
        let mut s = self;
        s.block_ctx = block_ctx;
        s
    }

    /// Sets the transaction context.
    pub fn with_tx_context(self, tx_ctx: TxContext) -> (r: Self)
        ensures
            r == (Evm { tx_ctx, ..self }),
    {
        let mut s = self;
        s.tx_ctx = tx_ctx;
        s
    }

    /// Sets the call context.
    pub fn with_call_context(self, call_ctx: CallContext) -> (r: Self)
        ensures
            r == (Evm { call_ctx, ..self }),
    {
        let mut s = self;
        s.call_ctx = call_ctx;
        s
    }

    /// The world state, consuming the machine.
    pub fn into_state(self) -> (r: S)
        ensures
            r == self.state,
    {
        self.state
    }

    /// Marks accounts warm (the sender, the recipient, precompiles, access lists).
    pub fn warm_addresses(self, addresses: &[Address]) -> (r: Self)
        ensures
            r.accessed_addresses.map().dom() == self.accessed_addresses.map().dom().union(
                addresses@.to_set(),
            ),
            r == (Evm { accessed_addresses: r.accessed_addresses, ..self }),
    {
        let mut s = self;
        let ghost d0 = s.accessed_addresses.map().dom();
        let mut i: usize = 0;
        while i < addresses.len()
            invariant
                i <= addresses@.len(),
                s.accessed_addresses.map().dom() == d0.union(addresses@.subrange(0, i as int).to_set()),
                s == (Evm { accessed_addresses: s.accessed_addresses, ..self }),
            decreases addresses@.len() - i,
        {
            s.accessed_addresses.insert(addresses[i], ());
            proof {
                assert(addresses@.subrange(0, i + 1) =~= addresses@.subrange(0, i as int).push(
                    addresses@[i as int],
                ));
                addresses@.subrange(0, i as int).lemma_push_to_set_commute(addresses@[i as int]);
                assert(s.accessed_addresses.map().dom() =~= d0.union(
                    addresses@.subrange(0, i + 1).to_set(),
                ));
            }
            i = i + 1;
        }
        proof {
            assert(addresses@.subrange(0, addresses@.len() as int) =~= addresses@);
        }
        s
    }

    /// Marks a storage slot warm (access lists).
    pub fn warm_storage(&mut self, address: &Address, key: &U256)
        ensures
            final(self).accessed_storage.map().dom() == old(self).accessed_storage.map().dom().insert(
                (*address, *key),
            ),
            *final(self) == (Evm { accessed_storage: final(self).accessed_storage, ..*old(self) }),
    {
        self.accessed_storage.insert((*address, *key), ());
        proof {
            assert(self.accessed_storage.map().dom() =~= old(self).accessed_storage.map().dom().insert(
                (*address, *key),
            ));
        }
    }

    /// Executes one instruction. A halted machine, or one whose program counter
    /// is past the code, halts (again). Otherwise the opcode's base gas is charged
    /// (out of gas if not enough is left) and the opcode executed: the machine then
    /// advances, jumps, records a log, halts on STOP, RETURN and SELFDESTRUCT, and
    /// fails on REVERT. Every instruction that does not halt costs gas.
    pub fn step(&mut self) -> (r: Result<(), EvmError>)
        ensures
            old(self).stopped || old(self).pc >= old(self).code@.len() ==> r is Ok
                && final(self).stopped && final(self).gas_remaining == old(self).gas_remaining,
            !old(self).stopped && old(self).pc < old(self).code@.len() && old(self).gas_remaining
                < opcode_base_gas(old(self).code@[old(self).pc as int]) ==> r == Err::<(), EvmError>(
                EvmError::OutOfGas,
            ) && final(self).gas_remaining == old(self).gas_remaining,
            r is Ok ==> final(self).gas_remaining <= old(self).gas_remaining,
            r is Ok && !final(self).stopped ==> final(self).gas_remaining < old(self).gas_remaining,
            final(self).code@ == old(self).code@,
            final(self).jumpdests@ == old(self).jumpdests@,
            steps_to(*old(self), *final(self), r),
    {
        let code_len = self.code.len();
        if self.stopped || self.pc >= code_len {
            self.stopped = true;
            return Ok(());
        }
        let opcode = self.code[self.pc];
        let base_gas = opcode_gas_cost(opcode);
        if self.gas_remaining < base_gas {
            return Err(EvmError::OutOfGas);
        }
        self.gas_remaining = self.gas_remaining - base_gas;
        let ghost g1 = self.gas_remaining;
        let ctx = ExecContext {
            code: self.code.as_slice(),
            pc: self.pc,
            jumpdests: self.jumpdests.as_slice(),
            block_number: self.block_ctx.number,
            block_timestamp: self.block_ctx.timestamp,
            block_coinbase: self.block_ctx.coinbase,
            block_difficulty: self.block_ctx.difficulty,
            block_gas_limit: self.block_ctx.gas_limit,
            block_chain_id: self.block_ctx.chain_id,
            block_base_fee: self.block_ctx.base_fee,
            block_excess_blob_gas: self.block_ctx.excess_blob_gas,
            tx_origin: self.tx_ctx.origin,
            tx_gas_price: self.tx_ctx.gas_price,
            call_address: self.call_ctx.address,
            call_caller: self.call_ctx.caller,
            call_value: self.call_ctx.call_value,
            call_data: self.call_ctx.call_data.as_slice(),
        };
        let res = exec::execute_opcode(
            opcode,
            &ctx,
            &mut self.stack,
            &mut self.memory,
            &mut self.state,
            &mut self.host,
            &mut self.gas_remaining,
            &mut self.gas_refund,
            &mut self.return_data,
            &mut self.accessed_addresses,
            &mut self.accessed_storage,
        );
        let ghost mid = *self;
        let ghost out = res;
        let ghost m0 = *old(self);
        proof {
            assert(ctx@ == machine_context(m0));
        }
        let (outcome, sstore_trace) = match res {
            Ok(v) => v,
            Err(e) => {
                proof {
                    assert(step_via(m0, mid, out, *self, Err::<(), EvmError>(e)));
                }
                return Err(e);
            },
        };
        proof {
            if !is_defined(opcode) || opcode == 0xFE || opcode == 0xFD {
            } else if opcode != 0x00 && opcode != 0x55 && opcode != 0xF3 {
                lemma_base_exceeds_refund(opcode);
            }
        }
        match sstore_trace {
            Some((addr, k, _)) => {
                self.accessed_storage.insert((addr, k), ());
            },
            None => {},
        }
        match outcome {
            StepOutcome::Continue(adv) => {
                self.pc = self.pc.saturating_add(adv as usize);
            },
            StepOutcome::Stop => {
                self.stopped = true;
                self.pc = self.pc + 1;
            },
            StepOutcome::Return(data) => {
                self.return_data = data;
                self.stopped = true;
                self.pc = self.pc + 1;
            },
            StepOutcome::Revert(data) => {
                proof {
                    assert(step_via(m0, mid, out, *self, Err::<(), EvmError>(EvmError::Revert(data))));
                }
                return Err(EvmError::Revert(data));
            },
            StepOutcome::Jump(new_pc) => {
                self.pc = new_pc;
            },
            StepOutcome::Log(address, topics, data) => {
                self.logs.push(LogEntry { address, topics, data });
                self.pc = self.pc + 1;
            },
        }
        proof {
            assert(step_via(m0, mid, out, *self, Ok::<(), EvmError>(())));
        }
        Ok(())
    }

    /// Runs until the machine halts or its program counter passes the end of the
    /// code; the result reports the gas used (the gas limit less the gas left), the
    /// refund, the return data, the logs, and the final stack and memory.
    pub fn run(&mut self) -> (r: Result<ExecutionResult, EvmError>)
        ensures
            old(self).stopped || old(self).pc >= old(self).code@.len() ==> r is Ok
                && final(self).state == old(self).state && final(self).gas_remaining
                == old(self).gas_remaining && final(self).return_data@ == old(self).return_data@
                && final(self).logs@.len() == old(self).logs@.len(),
            starts_out_of_gas(old(self).code@, old(self).pc, old(self).stopped, old(self).gas_remaining)
                ==> r == Err::<ExecutionResult, EvmError>(EvmError::OutOfGas),
            r is Ok ==> final(self).gas_remaining <= old(self).gas_remaining,
            r matches Ok(res) ==> res.success && res.gas_used == old(self).gas_remaining
                - final(self).gas_remaining && res.gas_refund == final(self).gas_refund
                && res.return_data@ == final(self).return_data@ && res.stack@ == final(self).stack@
                && res.logs@.len() == final(self).logs@.len() && (final(self).stopped || final(self).pc >= final(self).code@.len()),
            final(self).code@ == old(self).code@,
            runs_to(*old(self), *final(self), status_of(r)),
    {
        let initial_gas = self.gas_remaining;
        let ghost mut first = true;
        let ghost start = *self;
        let ghost mut n: nat = 0;
        proof {
            assert(reaches(start, *self, 0));
        }
        while !self.stopped && self.pc < self.code.len()
            invariant
                self.gas_remaining <= initial_gas,
                initial_gas == old(self).gas_remaining,
                self.code@ == old(self).code@,
                first ==> self.stopped == old(self).stopped && self.pc == old(self).pc
                    && self.gas_remaining == initial_gas && self.state == old(self).state
                    && self.return_data@ == old(self).return_data@ && self.logs@.len()
                    == old(self).logs@.len(),
                !first ==> !starts_out_of_gas(
                    old(self).code@,
                    old(self).pc,
                    old(self).stopped,
                    old(self).gas_remaining,
                ) && !old(self).stopped && old(self).pc < old(self).code@.len(),
                start == *old(self),
                reaches(start, *self, n),
            decreases self.gas_remaining as int + if self.stopped { 0int } else { 1int },
        {
            let ghost prev = *self;
            let res = self.step();
            match res {
                Ok(u) => {
                    proof {
                        assert(res == Ok::<(), EvmError>(()));
                    }
                },
                Err(e) => {
                    proof {
                        assert(!halted(prev));
                        assert(reaches(start, prev, n) && !halted(prev) && steps_to(
                            prev,
                            *self,
                            Err::<(), EvmError>(e),
                        ));
                    }
                    return Err(e);
                },
            }
            proof {
                lemma_reaches_extend(start, prev, *self, n);
                n = n + 1;
                first = false;
            }
        }
        proof {
            assert(halted(*self));
            assert(reaches(start, *self, n));
        }
        Ok(ExecutionResult {
            success: true,
            gas_used: initial_gas - self.gas_remaining,
            gas_refund: self.gas_refund,
            return_data: copy_vec(self.return_data.as_slice()),
            logs: copy_logs(&self.logs),
            stack: self.stack.clone(),
            memory: self.memory.clone(),
            gas_trace: None,
        })
    }
}

// =============================================================================
// Entry points
// =============================================================================

/// The 20 bytes of the precompile address with number `n`: zeros, then `n`.
pub open spec fn precompile_address_view(n: int) -> Seq<u8> {
    Seq::new(20, |j: int| if j == 19 { n as u8 } else { 0u8 })
}

/// The accounts warm before execution starts (EIP-2929): the sender, the
/// recipient, the coinbase (EIP-3651), the precompiles 0x01 to 0x0a, then the
/// addresses of the access list, in that order.
pub fn prewarmed_addresses(
    origin: Address,
    recipient: Address,
    coinbase: Address,
    access_list: &[(Address, Vec<U256>)],
) -> (r: Vec<Address>)
    requires
        access_list@.len() + 13 <= usize::MAX,
    ensures
        r@.len() == 13 + access_list@.len(),
        r@[0] == origin,
        r@[1] == recipient,
        r@[2] == coinbase,
        forall|i: int| 0 <= i < 10 ==> (#[trigger] r@[3 + i])@ == precompile_address_view(i + 1),
        forall|j: int| 0 <= j < access_list@.len() ==> #[trigger] r@[13 + j] == access_list@[j].0,
{
    let mut warm: Vec<Address> = Vec::new();
    warm.push(origin);
    warm.push(recipient);
    warm.push(coinbase);
    let mut n: u8 = 1;
    while n <= 10
        invariant
            1 <= n <= 11,
            warm@.len() == 2 + n,
            warm@[0] == origin,
            warm@[1] == recipient,
            warm@[2] == coinbase,
            forall|i: int| 0 <= i < n - 1 ==> (#[trigger] warm@[3 + i])@ == precompile_address_view(i + 1),
        decreases 11 - n,
    {
        let mut bytes = [0u8; 20];
        bytes[19] = n;
        let a = Address::new(bytes);
        proof {
            assert(a@ =~= precompile_address_view(n as int));
        }
        warm.push(a);
        n = n + 1;
    }
    let mut k: usize = 0;
    while k < access_list.len()
        invariant
            k <= access_list@.len(),
            warm@.len() == 13 + k,
            warm@[0] == origin,
            warm@[1] == recipient,
            warm@[2] == coinbase,
            forall|i: int| 0 <= i < 10 ==> (#[trigger] warm@[3 + i])@ == precompile_address_view(i + 1),
            forall|j: int| 0 <= j < k ==> #[trigger] warm@[13 + j] == access_list@[j].0,
        decreases access_list@.len() - k,
    {
        warm.push(access_list[k].0);
        k = k + 1;
    }
    warm
}

/// Whether account `a` starts warm (EIP-2929, EIP-3651, EIP-2930): the sender, the
/// recipient, the coinbase, a precompile 0x01 to 0x0a, or a listed account.
pub open spec fn prewarmed(
    a: Address,
    origin: Address,
    recipient: Address,
    coinbase: Address,
    access_list: Seq<(Address, Vec<U256>)>,
) -> bool {
    ||| a == origin
    ||| a == recipient
    ||| a == coinbase
    ||| exists|i: int| 1 <= i <= 10 && a@ == #[trigger] precompile_address_view(i)
    ||| exists|j: int| 0 <= j < access_list.len() && a == #[trigger] access_list[j].0
}

/// Whether slot `p` is listed among the first `k` entries of the access list, or
/// among the first `j` keys of entry `k`.
pub open spec fn slot_listed(
    access_list: Seq<(Address, Vec<U256>)>,
    p: (Address, U256),
    k: int,
    j: int,
) -> bool {
    exists|i: int, jj: int|
        #![trigger access_list[i].1@[jj]]
        ((0 <= i < k && 0 <= jj < access_list[i].1@.len()) || (i == k && 0 <= jj < j
            && jj < access_list[i].1@.len())) && access_list[i].0 == p.0 && access_list[i].1@[jj]
            == p.1
}

/// A machine about to run `code` with `gas` against `state` through `host`, with
/// these contexts, the accounts of `prewarmed` and the listed slots warm.
pub open spec fn initial_machine<S, H>(
    m: Evm<S, H>,
    code: Seq<u8>,
    gas: u64,
    state: S,
    host: H,
    block_ctx: BlockContext,
    tx_ctx: TxContext,
    call_ctx: CallContext,
    access_list: Seq<(Address, Vec<U256>)>,
) -> bool {
    &&& m.code@ == code
    &&& m.gas_remaining == gas
    &&& m.gas_refund == 0
    &&& m.pc == 0
    &&& !m.stopped
    &&& m.stack@.len() == 0
    &&& m.memory@.len() == 0
    &&& m.return_data@.len() == 0
    &&& m.logs@.len() == 0
    &&& m.state == state
    &&& m.host == host
    &&& m.block_ctx == block_ctx
    &&& m.tx_ctx == tx_ctx
    &&& m.call_ctx == call_ctx
    &&& m.jumpdests@.len() == code.len()
    &&& forall|i: int|
        0 <= i < code.len() ==> m.jumpdests@[i]
            == crate::evm::opcodes::control::valid_jumpdests(code).contains(i as usize)
    &&& forall|a: Address|
        m.accessed_addresses.map().dom().contains(a) <==> prewarmed(
            a,
            tx_ctx.origin,
            call_ctx.address,
            block_ctx.coinbase,
            access_list,
        )
    &&& forall|p: (Address, U256)|
        m.accessed_storage.map().dom().contains(p) <==> slot_listed(
            access_list,
            p,
            access_list.len() as int,
            0,
        )
}

/// The outcome of running `code`: a run from an initial machine to a final one,
/// and, on success, the result and final state read off the final machine.
pub open spec fn executes<S, H>(
    code: Seq<u8>,
    gas: u64,
    state: S,
    host: H,
    block_ctx: BlockContext,
    tx_ctx: TxContext,
    call_ctx: CallContext,
    access_list: Seq<(Address, Vec<U256>)>,
    r: Result<(ExecutionResult, S), EvmError>,
) -> bool where S: State, H: Host<S> {
    exists|m0: Evm<S, H>, m1: Evm<S, H>|
        #[trigger] initial_machine(m0, code, gas, state, host, block_ctx, tx_ctx, call_ctx, access_list)
            && #[trigger] runs_to(m0, m1, status_of(r)) && (r matches Ok((res, st)) ==> {
            &&& st == m1.state
            &&& res.success
            &&& res.gas_used == gas - m1.gas_remaining
            &&& res.gas_refund == m1.gas_refund
            &&& res.stack@ == m1.stack@
            &&& res.return_data@ == m1.return_data@
            &&& res.logs@.len() == m1.logs@.len()
        })
}

/// The accounts `prewarmed_addresses` lists are exactly the prewarmed ones.
proof fn lemma_prewarmed_set(
    warm: Seq<Address>,
    origin: Address,
    recipient: Address,
    coinbase: Address,
    access_list: Seq<(Address, Vec<U256>)>,
)
    requires
        warm.len() == 13 + access_list.len(),
        warm[0] == origin,
        warm[1] == recipient,
        warm[2] == coinbase,
        forall|i: int| 0 <= i < 10 ==> (#[trigger] warm[3 + i])@ == precompile_address_view(i + 1),
        forall|j: int| 0 <= j < access_list.len() ==> #[trigger] warm[13 + j] == access_list[j].0,
    ensures
        forall|a: Address|
            warm.to_set().contains(a) <==> prewarmed(a, origin, recipient, coinbase, access_list),
{
    assert forall|a: Address| warm.to_set().contains(a) <==> prewarmed(
        a,
        origin,
        recipient,
        coinbase,
        access_list,
    ) by {
        if warm.to_set().contains(a) {
            let k = choose|k: int| 0 <= k < warm.len() && warm[k] == a;
            if 3 <= k < 13 {
                assert(warm[3 + (k - 3)]@ == precompile_address_view(k - 2));
            } else if k >= 13 {
                assert(warm[13 + (k - 13)] == access_list[k - 13].0);
            }
        }
        if prewarmed(a, origin, recipient, coinbase, access_list) {
            if a == origin {
                assert(warm[0] == a);
            } else if a == recipient {
                assert(warm[1] == a);
            } else if a == coinbase {
                assert(warm[2] == a);
            } else if exists|i: int| 1 <= i <= 10 && a@ == #[trigger] precompile_address_view(i) {
                let i = choose|i: int| 1 <= i <= 10 && a@ == #[trigger] precompile_address_view(i);
                assert(warm[3 + (i - 1)]@ == precompile_address_view(i));
                assert(warm[3 + (i - 1)].bytes =~= a.bytes);
                assert(warm[3 + (i - 1)] == a);
            } else {
                let j = choose|j: int| 0 <= j < access_list.len() && a == #[trigger] access_list[j].0;
                assert(warm[13 + j] == a);
            }
        }
    }
}

/// Runs `code` with `gas_limit` gas against `state`, with no host for nested
/// calls and default contexts; gives the result and the final state.
pub fn execute_bytecode<S: State>(code: &[u8], gas_limit: u64, state: S) -> (r: Result<
    (ExecutionResult, S),
    EvmError,
>)
    ensures
        code@.len() == 0 ==> (r matches Ok((res, st)) && st == state && res.success
            && res.gas_used == 0 && res.return_data@.len() == 0 && res.logs@.len() == 0),
        code@.len() > 0 && gas_limit < opcode_base_gas(code@[0]) ==> r == Err::<
            (ExecutionResult, S),
            EvmError,
        >(EvmError::OutOfGas),
        r matches Ok((res, st)) ==> res.success && res.gas_used <= gas_limit,
        exists|b: BlockContext, t: TxContext, c: CallContext|
            is_default_block(b) && is_default_tx(t) && is_default_call(c) && #[trigger] executes(
                code@,
                gas_limit,
                state,
                NullHost,
                b,
                t,
                c,
                Seq::<(Address, Vec<U256>)>::empty(),
                r,
            ),
{
    execute_bytecode_with_host(code, gas_limit, state, NullHost)
}

/// Runs `code` with `gas_limit` gas against `state`, handing nested calls and
/// creations to `host`, with default contexts.
pub fn execute_bytecode_with_host<S: State, H: Host<S>>(
    code: &[u8],
    gas_limit: u64,
    state: S,
    host: H,
) -> (r: Result<(ExecutionResult, S), EvmError>)
    ensures
        code@.len() == 0 ==> (r matches Ok((res, st)) && st == state && res.success
            && res.gas_used == 0 && res.return_data@.len() == 0 && res.logs@.len() == 0),
        code@.len() > 0 && gas_limit < opcode_base_gas(code@[0]) ==> r == Err::<
            (ExecutionResult, S),
            EvmError,
        >(EvmError::OutOfGas),
        r matches Ok((res, st)) ==> res.success && res.gas_used <= gas_limit,
        exists|b: BlockContext, t: TxContext, c: CallContext|
            is_default_block(b) && is_default_tx(t) && is_default_call(c) && #[trigger] executes(
                code@,
                gas_limit,
                state,
                host,
                b,
                t,
                c,
                Seq::<(Address, Vec<U256>)>::empty(),
                r,
            ),
{
    let b = BlockContext::default();
    let t = TxContext::default();
    let c = CallContext::default();
    let ghost (b0, t0, c0, state0, host0) = (b, t, c, state, host);
    let r = execute_bytecode_with_host_and_contexts(code, gas_limit, state, host, b, t, c);
    proof {
        assert(executes(code@, gas_limit, state0, host0, b0, t0, c0, Seq::<(Address, Vec<U256>)>::empty(), r));
    }
    r
}

/// Runs `code` with explicit block, transaction and call contexts and no access
/// list.
pub fn execute_bytecode_with_host_and_contexts<S: State, H: Host<S>>(
    code: &[u8],
    gas_limit: u64,
    state: S,
    host: H,
    block_ctx: BlockContext,
    tx_ctx: TxContext,
    call_ctx: CallContext,
) -> (r: Result<(ExecutionResult, S), EvmError>)
    ensures
        code@.len() == 0 ==> (r matches Ok((res, st)) && st == state && res.success
            && res.gas_used == 0 && res.return_data@.len() == 0 && res.logs@.len() == 0),
        code@.len() > 0 && gas_limit < opcode_base_gas(code@[0]) ==> r == Err::<
            (ExecutionResult, S),
            EvmError,
        >(EvmError::OutOfGas),
        r matches Ok((res, st)) ==> res.success && res.gas_used <= gas_limit,
        executes(
            code@,
            gas_limit,
            state,
            host,
            block_ctx,
            tx_ctx,
            call_ctx,
            Seq::<(Address, Vec<U256>)>::empty(),
            r,
        ),
{
    let empty: Vec<(Address, Vec<U256>)> = Vec::new();
    proof {
        assert(empty@ =~= Seq::<(Address, Vec<U256>)>::empty());
    }
    execute_bytecode_with_host_contexts_and_access_list(
        code,
        gas_limit,
        state,
        host,
        block_ctx,
        tx_ctx,
        call_ctx,
        empty.as_slice(),
    )
}

/// Runs `code` with explicit contexts and an access list (EIP-2930): the sender,
/// the recipient, the coinbase, the precompiles and the listed accounts start warm,
/// and so do the listed storage slots.
pub fn execute_bytecode_with_host_contexts_and_access_list<S: State, H: Host<S>>(
    code: &[u8],
    gas_limit: u64,
    state: S,
    host: H,
    block_ctx: BlockContext,
    tx_ctx: TxContext,
    call_ctx: CallContext,
    access_list: &[(Address, Vec<U256>)],
) -> (r: Result<(ExecutionResult, S), EvmError>)
    requires
        access_list@.len() + 13 <= usize::MAX,
    ensures
        code@.len() == 0 ==> (r matches Ok((res, st)) && st == state && res.success
            && res.gas_used == 0 && res.return_data@.len() == 0 && res.logs@.len() == 0),
        code@.len() > 0 && gas_limit < opcode_base_gas(code@[0]) ==> r == Err::<
            (ExecutionResult, S),
            EvmError,
        >(EvmError::OutOfGas),
        r matches Ok((res, st)) ==> res.success && res.gas_used <= gas_limit,
        executes(code@, gas_limit, state, host, block_ctx, tx_ctx, call_ctx, access_list@, r),
{
    let ghost (state0, host0, b0, t0, c0) = (state, host, block_ctx, tx_ctx, call_ctx);
    let warm = prewarmed_addresses(tx_ctx.origin, call_ctx.address, block_ctx.coinbase, access_list);
    let mut evm = Evm::new(bytes_to_vec(code), gas_limit, state, host).with_block_context(
        block_ctx,
    ).with_tx_context(tx_ctx).with_call_context(call_ctx).warm_addresses(warm.as_slice());
    proof {
        lemma_prewarmed_set(warm@, t0.origin, c0.address, b0.coinbase, access_list@);
        assert(evm.accessed_storage.map().dom() =~= Set::<(Address, U256)>::empty());
    }
    let ghost evm0 = evm;
    let ghost al = access_list@;
    let mut k: usize = 0;
    while k < access_list.len()
        invariant
            evm == (Evm { accessed_storage: evm.accessed_storage, ..evm0 }),
            k <= al.len(),
            al == access_list@,
            forall|p: (Address, U256)|
                evm.accessed_storage.map().dom().contains(p) <==> slot_listed(al, p, k as int, 0),
        decreases access_list@.len() - k,
    {
        let addr = access_list[k].0;
        let keys = &access_list[k].1;
        let mut j: usize = 0;
        while j < keys.len()
            invariant
                evm == (Evm { accessed_storage: evm.accessed_storage, ..evm0 }),
                k < al.len(),
                al == access_list@,
                addr == al[k as int].0,
                *keys == al[k as int].1,
                j <= keys@.len(),
                forall|p: (Address, U256)|
                    evm.accessed_storage.map().dom().contains(p) <==> slot_listed(
                        al,
                        p,
                        k as int,
                        j as int,
                    ),
            decreases keys@.len() - j,
        {
            let ghost d0 = evm.accessed_storage.map().dom();
            evm.warm_storage(&addr, &keys[j]);
            proof {
                assert forall|p: (Address, U256)| evm.accessed_storage.map().dom().contains(
                    p,
                ) <==> slot_listed(al, p, k as int, j + 1) by {
                    if p == (addr, keys@[j as int]) {
                        assert(al[k as int].1@[j as int] == p.1);
                    } else if d0.contains(p) {
                        assert(slot_listed(al, p, k as int, j as int));
                        let (i, jj) = choose|i: int, jj: int|
                            #![trigger al[i].1@[jj]]
                            ((0 <= i < k && 0 <= jj < al[i].1@.len()) || (i == k && 0 <= jj < j
                                && jj < al[i].1@.len())) && al[i].0 == p.0 && al[i].1@[jj]
                                == p.1;
                        assert(al[i].1@[jj] == p.1);
                    }
                    if slot_listed(al, p, k as int, j + 1) {
                        let (i, jj) = choose|i: int, jj: int|
                            #![trigger al[i].1@[jj]]
                            ((0 <= i < k && 0 <= jj < al[i].1@.len()) || (i == k && 0 <= jj < j
                                + 1 && jj < al[i].1@.len())) && al[i].0 == p.0 && al[i].1@[jj]
                                == p.1;
                        if !(i == k && jj == j) {
                            assert(slot_listed(al, p, k as int, j as int));
                        }
                    }
                }
            }
            j = j + 1;
        }
        proof {
            assert forall|p: (Address, U256)| evm.accessed_storage.map().dom().contains(
                p,
            ) <==> slot_listed(al, p, k + 1, 0) by {
                if slot_listed(al, p, k as int, j as int) {
                    let (i, jj) = choose|i: int, jj: int|
                        #![trigger al[i].1@[jj]]
                        ((0 <= i < k && 0 <= jj < al[i].1@.len()) || (i == k && 0 <= jj < j
                            && jj < al[i].1@.len())) && al[i].0 == p.0 && al[i].1@[jj] == p.1;
                    assert(slot_listed(al, p, k + 1, 0));
                }
                if slot_listed(al, p, k + 1, 0) {
                    let (i, jj) = choose|i: int, jj: int|
                        #![trigger al[i].1@[jj]]
                        ((0 <= i < k + 1 && 0 <= jj < al[i].1@.len()) || (i == k + 1 && 0 <= jj
                            < 0 && jj < al[i].1@.len())) && al[i].0 == p.0 && al[i].1@[jj] == p.1;
                    assert(slot_listed(al, p, k as int, j as int));
                }
            }
        }
        k = k + 1;
    }
    let ghost m0 = evm;
    proof {
        assert(initial_machine(m0, code@, gas_limit, state0, host0, b0, t0, c0, al));
    }
    let res = evm.run();
    match res {
        Ok(result) => {
            let st = evm.state;
            proof {
                assert(runs_to(m0, evm, status_of(Ok::<(ExecutionResult, S), EvmError>((result, st)))));
            }
            Ok((result, st))
        },
        Err(e) => {
            proof {
                assert(runs_to(m0, evm, status_of(Err::<(ExecutionResult, S), EvmError>(e))));
            }
            Err(e)
        },
    }
}

} // verus!
