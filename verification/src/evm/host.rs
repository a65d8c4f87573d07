//! The host: how an execution reaches beyond its own frame — nested calls and
//! contract creation, recent block hashes, blob hashes and the blob base fee.

use vstd::prelude::*;
use crate::crypto::keccak::{keccak256, keccak256_spec};
use crate::crypto::rlp::{encode_address, encode_list, encode_u256, rlp_list, rlp_string, minimal_be, concat};
use crate::evm::interpreter::{BlockContext, CallContext, ExecutionResult, EvmError, TxContext, same_tx_ctx};
use crate::state::State;
use crate::evm::gas::{
    blob_gas_price, fake_exponential_spec, BLOB_BASE_FEE_UPDATE_FRACTION, MIN_BLOB_GASPRICE,
};
use crate::state::{code_at, word_at};
use crate::types::{Address, U256, be_bytes, pow256};

verus! {

/// The kind of a call.
#[derive(Debug, Clone, Copy, PartialEq, Eq, Structural)]
pub enum CallKind {
    /// CALL.
    Call,
    /// CALLCODE.
    CallCode,
    /// DELEGATECALL.
    DelegateCall,
    /// STATICCALL.
    StaticCall,
}

/// A call handed to the host.
#[derive(Debug, Clone, PartialEq, Eq)]
pub struct CallMessage {
    /// The kind of call.
    pub kind: CallKind,
    /// Gas forwarded to the callee.
    pub gas: u64,
    /// The account whose storage and context the call runs in.
    pub address: Address,
    /// The caller (msg.sender) seen by the callee.
    pub caller: Address,
    /// The value (msg.value) seen by the callee.
    pub value: U256,
    /// The account whose code runs.
    pub code_address: Address,
    /// Input data.
    pub input: Vec<u8>,
    /// Whether the call is static.
    pub is_static: bool,
}

/// The host's answer to a call.
#[derive(Debug, Clone, PartialEq, Eq)]
pub struct CallResult {
    /// Whether the call succeeded.
    pub success: bool,
    /// Data returned by the callee.
    pub return_data: Vec<u8>,
    /// Gas the callee used.
    pub gas_used: u64,
}

impl Default for CallResult {
    /// A failed call that returned nothing and used no gas.
    fn default() -> (r: CallResult)
        ensures
            !r.success,
            r.return_data@.len() == 0,
            r.gas_used == 0,
    {
        CallResult { success: false, return_data: Vec::new(), gas_used: 0 }
    }
}

/// A CREATE or CREATE2 handed to the host.
#[derive(Debug, Clone, PartialEq, Eq)]
pub struct CreateMessage {
    /// Gas forwarded to the init code.
    pub gas: u64,
    /// The creating account.
    pub caller: Address,
    /// Value endowed to the new account.
    pub value: U256,
    /// Init code.
    pub init_code: Vec<u8>,
    /// Salt of CREATE2 (`None` for CREATE).
    pub salt: Option<U256>,
}

/// The host's answer to a creation.
#[derive(Debug, Clone, PartialEq, Eq)]
pub struct CreateResult {
    /// Whether the creation succeeded.
    pub success: bool,
    /// Address of the new account, on success.
    pub address: Option<Address>,
    /// Data returned by the init code.
    pub return_data: Vec<u8>,
    /// Gas the init code used.
    pub gas_used: u64,
}

impl Default for CreateResult {
    /// A failed creation that returned nothing and used no gas.
    fn default() -> (r: CreateResult)
        ensures
            !r.success,
            r.address is None,
            r.return_data@.len() == 0,
            r.gas_used == 0,
    {
        CreateResult { success: false, address: None, return_data: Vec::new(), gas_used: 0 }
    }
}

/// The host interface: nested calls and creations, and block and transaction data
/// outside the executing frame. Nothing is assumed of what a host answers.
pub trait Host<S: State> {
    /// Whether `r` is an answer that this host gives to the call `msg` made
    /// against `state`; a host that states nothing of its answers leaves it true.
    open spec fn answers_call(&self, state: S, msg: CallMessage, r: CallResult) -> bool {
        true
    }

    /// Whether `r` is an answer that this host gives to the creation `msg` made
    /// against `state`; a host that states nothing of its answers leaves it true.
    open spec fn answers_create(&self, state: S, msg: CreateMessage, r: CreateResult) -> bool {
        true
    }

    /// Runs a nested call against the state.
    fn call(&mut self, state: &mut S, msg: CallMessage) -> (r: CallResult)
        ensures
            old(self).answers_call(*old(state), msg, r),
    ;

    /// Runs a nested creation against the state.
    fn create(&mut self, state: &mut S, msg: CreateMessage) -> (r: CreateResult)
        ensures
            old(self).answers_create(*old(state), msg, r),
    ;

    /// Whether `r` is what this host answers for the hash of block `number`; a
    /// host that states nothing of its answers leaves it true.
    open spec fn answers_blockhash(&self, number: U256, r: Option<crate::types::Hash>) -> bool {
        true
    }

    /// Whether `r` is what this host answers for blob `index`; a host that states
    /// nothing of its answers leaves it true.
    open spec fn answers_blobhash(&self, index: U256, r: Option<crate::types::Hash>) -> bool {
        true
    }

    /// Whether `r` is the blob base fee this host answers; a host that states
    /// nothing of its answers leaves it true.
    open spec fn answers_blobbasefee(&self, r: U256) -> bool {
        true
    }

    /// The hash of block `number`, when known.
    fn blockhash(&self, number: &U256) -> (r: Option<crate::types::Hash>)
        ensures
            self.answers_blockhash(*number, r),
    ;

    /// The versioned hash of blob `index` of the transaction, when it has one.
    fn blobhash(&self, index: &U256) -> (r: Option<crate::types::Hash>)
        ensures
            self.answers_blobhash(*index, r),
    ;

    /// The blob base fee.
    fn blobbasefee(&self) -> (r: U256)
        ensures
            self.answers_blobbasefee(r),
    ;
}

/// A host that runs nothing: calls and creations fail using no gas, and no block
/// or blob hash is known.
#[derive(Debug, Default, Clone, Copy)]
pub struct NullHost;

impl<S: State> Host<S> for NullHost {
    /// Every call fails, using no gas and returning nothing.
    open spec fn answers_call(&self, state: S, msg: CallMessage, r: CallResult) -> bool {
        !r.success && r.return_data@.len() == 0 && r.gas_used == 0
    }

    /// Every creation fails, creating nothing, using no gas and returning nothing.
    open spec fn answers_create(&self, state: S, msg: CreateMessage, r: CreateResult) -> bool {
        !r.success && r.address is None && r.return_data@.len() == 0 && r.gas_used == 0
    }

    /// No block hash is known.
    open spec fn answers_blockhash(&self, number: U256, r: Option<crate::types::Hash>) -> bool {
        r is None
    }

    /// No blob hash is known.
    open spec fn answers_blobhash(&self, index: U256, r: Option<crate::types::Hash>) -> bool {
        r is None
    }

    /// The blob base fee is zero.
    open spec fn answers_blobbasefee(&self, r: U256) -> bool {
        r@ == 0
    }

    fn call(&mut self, _state: &mut S, _msg: CallMessage) -> (r: CallResult)
        ensures
            !r.success,
            r.return_data@.len() == 0,
            r.gas_used == 0,
            *final(_state) == *old(_state),
    {
        CallResult { success: false, return_data: Vec::new(), gas_used: 0 }
    }

    fn create(&mut self, _state: &mut S, _msg: CreateMessage) -> (r: CreateResult)
        ensures
            !r.success,
            r.address is None,
            r.return_data@.len() == 0,
            r.gas_used == 0,
            *final(_state) == *old(_state),
    {
        CreateResult { success: false, address: None, return_data: Vec::new(), gas_used: 0 }
    }

    fn blockhash(&self, _number: &U256) -> Option<crate::types::Hash> {
        None
    }

    fn blobhash(&self, _index: &U256) -> Option<crate::types::Hash> {
        None
    }

    fn blobbasefee(&self) -> U256 {
        U256::zero()
    }
}

// =============================================================================
// Contract addresses
// =============================================================================

/// The CREATE address: the last 20 bytes of `keccak256(rlp([sender, nonce]))`.
pub open spec fn create_address_spec(sender: Seq<u8>, nonce: nat) -> Seq<u8> {
    keccak256_spec(rlp_list(rlp_string(sender) + rlp_string(minimal_be(nonce, 32)))).subrange(
        12,
        32,
    )
}

/// The CREATE2 address: the last 20 bytes of
/// `keccak256(0xff ++ sender ++ salt ++ keccak256(init_code))`.
pub open spec fn create2_address_spec(sender: Seq<u8>, salt: nat, init_code: Seq<u8>) -> Seq<u8> {
    keccak256_spec(seq![0xffu8] + sender + be_bytes(salt, 32) + keccak256_spec(init_code)).subrange(
        12,
        32,
    )
}

/// The address held in the last 20 bytes of a hash.
fn address_of_hash(hash: &crate::types::Hash) -> (r: Address)
    ensures
        r@ == hash@.subrange(12, 32),
{
    let mut bytes = [0u8; 20];
    let mut i: usize = 0;
    while i < 20
        invariant
            i <= 20,
            hash@.len() == 32,
            bytes@.len() == 20,
            forall|j: int| 0 <= j < i ==> bytes@[j] == hash@[12 + j],
        decreases 20 - i,
    {
        bytes[i] = hash.bytes[12 + i];
        i = i + 1;
    }
    proof {
        assert(bytes@ =~= hash@.subrange(12, 32));
    }
    Address::new(bytes)
}

/// The address a CREATE by `sender` with nonce `nonce` deploys to.
pub fn compute_create_address(sender: &Address, nonce: U256) -> (r: Address)
    ensures
        r@ == create_address_spec(sender@, nonce@),
{
    let sender_bytes = encode_address(sender);
    let nonce_bytes = encode_u256(&nonce);
    let ghost s1 = sender_bytes@;
    let ghost s2 = nonce_bytes@;
    let items = vec![sender_bytes, nonce_bytes];
    proof {
        let views = items@.map_values(|v: Vec<u8>| v@);
        assert(views =~= seq![s1, s2]);
        assert(views.drop_last() =~= seq![s1]);
        assert(views.drop_last().drop_last() =~= Seq::<Seq<u8>>::empty());
        assert(concat(views.drop_last().drop_last()) =~= Seq::<u8>::empty());
        assert(concat(views.drop_last()) =~= s1);
        assert(concat(views) =~= s1 + s2);
    }
    let encoded = encode_list(&items);
    let hash = keccak256(&encoded);
    address_of_hash(&hash)
}

/// The address a CREATE2 by `sender` with `salt` and `init_code` deploys to.
pub fn compute_create2_address(sender: &Address, salt: &U256, init_code: &[u8]) -> (r: Address)
    ensures
        r@ == create2_address_spec(sender@, salt@, init_code@),
{
    let code_hash = keccak256(init_code);
    let salt_bytes = salt.to_be_bytes();
    let mut data: Vec<u8> = Vec::new();
    data.push(0xff);
    crate::types::extend_bytes(&mut data, sender.as_bytes());
    crate::types::extend_bytes(&mut data, &salt_bytes);
    crate::types::extend_bytes(&mut data, code_hash.as_bytes());
    proof {
        assert(data@ =~= seq![0xffu8] + sender@ + be_bytes(salt@, 32) + keccak256_spec(init_code@));
    }
    let hash = keccak256(&data);
    address_of_hash(&hash)
}

// =============================================================================
// Recursive host
// =============================================================================

/// The hash of block `requested`, seen from block `current`: only the 256 blocks
/// before it; from the recent hashes (oldest first, the last one the parent's) when
/// there are any, else the parent hash for the block just before.
pub open spec fn blockhash_spec(
    current: nat,
    requested: nat,
    parent_hash: Option<crate::types::Hash>,
    recent: Seq<crate::types::Hash>,
) -> Option<crate::types::Hash> {
    if requested >= current || current - requested > 256 {
        None
    } else if recent.len() > 0 {
        let d = current - requested;
        if d > recent.len() {
            None
        } else {
            Some(recent[recent.len() - d])
        }
    } else if current - requested == 1 {
        parent_hash
    } else {
        None
    }
}

/// A host that runs nested calls and creations in new EVM instances, up to a
/// maximum depth.
#[derive(Debug, Clone)]
pub struct RecursiveHost {
    /// Maximum call depth (1024 by default).
    pub max_depth: usize,
    /// Current call depth.
    pub depth: usize,
    /// Current block number, for BLOCKHASH.
    pub block_number: u64,
    /// Parent block hash, for BLOCKHASH.
    pub parent_hash: Option<crate::types::Hash>,
    /// Recent block hashes, oldest first (at most 256).
    pub recent_block_hashes: Vec<crate::types::Hash>,
    /// Block context of nested executions.
    pub block_ctx: BlockContext,
    /// Transaction context of nested executions.
    pub tx_ctx: TxContext,
}

impl Default for RecursiveHost {
    /// Depth 0 of at most 1024, block 0, no known hashes, default contexts.
    fn default() -> (r: RecursiveHost)
        ensures
            r.max_depth == 1024,
            r.depth == 0,
            r.block_number == 0,
            r.parent_hash is None,
            r.recent_block_hashes@.len() == 0,
    {
        RecursiveHost {
            max_depth: 1024,
            depth: 0,
            block_number: 0,
            parent_hash: None,
            recent_block_hashes: Vec::new(),
            block_ctx: BlockContext::default(),
            tx_ctx: TxContext::default(),
        }
    }
}

impl RecursiveHost {
    /// A host at depth 0 with default settings.
    pub fn new() -> (r: RecursiveHost)
        ensures
            r.max_depth == 1024,
            r.depth == 0,
            r.block_number == 0,
            r.parent_hash is None,
            r.recent_block_hashes@.len() == 0,
    {
        RecursiveHost::default()
    }

    /// Sets the block context; the block number for BLOCKHASH becomes its number
    /// (saturated to 64 bits).
    pub fn with_block_context(self, block_ctx: BlockContext) -> (r: RecursiveHost)
        ensures
            r.block_number == if block_ctx.number@ <= u64::MAX {
                block_ctx.number@
            } else {
                u64::MAX as nat
            },
            r.block_ctx.number == block_ctx.number,
            r.max_depth == self.max_depth,
            r.depth == self.depth,
            r.parent_hash == self.parent_hash,
            r.recent_block_hashes@ == self.recent_block_hashes@,
    {
        let mut s = self;
        s.block_number = block_ctx.number.as_u64();
        s.block_ctx = block_ctx;
        s
    }

    /// Sets the parent block hash.
    pub fn with_parent_hash(self, parent_hash: crate::types::Hash) -> (r: RecursiveHost)
        ensures
            r.parent_hash == Some(parent_hash),
            r.block_number == self.block_number,
            r.max_depth == self.max_depth,
            r.depth == self.depth,
            r.recent_block_hashes@ == self.recent_block_hashes@,
    {
        let mut s = self;
        s.parent_hash = Some(parent_hash);
        s
    }

    /// Sets the recent block hashes, keeping the last 256.
    pub fn with_recent_block_hashes(self, block_hashes: &[crate::types::Hash]) -> (r:
        RecursiveHost)
        ensures
            r.recent_block_hashes@ == if block_hashes@.len() > 256 {
                block_hashes@.subrange(block_hashes@.len() - 256, block_hashes@.len() as int)
            } else {
                block_hashes@
            },
            r.block_number == self.block_number,
            r.parent_hash == self.parent_hash,
            r.max_depth == self.max_depth,
            r.depth == self.depth,
    {
        let start = if block_hashes.len() > 256 {
            block_hashes.len() - 256
        } else {
            0
        };
        let mut hashes: Vec<crate::types::Hash> = Vec::new();
        let mut i = start;
        while i < block_hashes.len()
            invariant
                start <= i <= block_hashes@.len(),
                hashes@ == block_hashes@.subrange(start as int, i as int),
            decreases block_hashes@.len() - i,
        {
            hashes.push(block_hashes[i]);
            i = i + 1;
            proof {
                assert(hashes@ =~= block_hashes@.subrange(start as int, i as int));
            }
        }
        proof {
            if block_hashes@.len() <= 256 {
                assert(hashes@ =~= block_hashes@);
            }
        }
        let mut s = self;
        s.recent_block_hashes = hashes;
        s
    }

    /// Sets the transaction context.
    pub fn with_tx_context(self, tx_ctx: TxContext) -> (r: RecursiveHost)
        ensures
            r.tx_ctx.blob_versioned_hashes@ == tx_ctx.blob_versioned_hashes@,
            r.block_number == self.block_number,
            r.parent_hash == self.parent_hash,
            r.max_depth == self.max_depth,
            r.depth == self.depth,
            r.recent_block_hashes@ == self.recent_block_hashes@,
    {
        let mut s = self;
        s.tx_ctx = tx_ctx;
        s
    }

    /// BLOCKHASH as this host answers it.
    pub fn block_hash_at(&self, number: &U256) -> (r: Option<crate::types::Hash>)
        ensures
            r == blockhash_spec(
                self.block_number as nat,
                if number@ <= u64::MAX { number@ } else { u64::MAX as nat },
                self.parent_hash,
                self.recent_block_hashes@,
            ),
    {
        let requested = number.as_u64();
        if requested >= self.block_number {
            return None;
        }
        let distance = self.block_number - requested;
        if distance > 256 {
            return None;
        }
        if self.recent_block_hashes.len() > 0 {
            let d = distance as usize;
            if d > self.recent_block_hashes.len() {
                return None;
            }
            return Some(self.recent_block_hashes[self.recent_block_hashes.len() - d]);
        }
        if distance == 1 {
            return self.parent_hash;
        }
        None
    }

    /// BLOBHASH as this host answers it: the transaction's blob hash at `index`.
    pub fn blob_hash_at(&self, index: &U256) -> (r: Option<crate::types::Hash>)
        ensures
            r == if index@ < self.tx_ctx.blob_versioned_hashes@.len() {
                Some(self.tx_ctx.blob_versioned_hashes@[index@ as int])
            } else {
                None::<crate::types::Hash>
            },
    {
        let n = self.tx_ctx.blob_versioned_hashes.len();
        if !index.fits_u64() {
            return None;
        }
        let i = index.as_u64();
        if i >= self.tx_ctx.blob_versioned_hashes.len() as u64 {
            return None;
        }
        Some(self.tx_ctx.blob_versioned_hashes[i as usize])
    }

    /// BLOBBASEFEE as this host answers it: the blob gas price of the block's
    /// excess blob gas, zero when the block has none.
    pub fn blob_base_fee(&self) -> (r: U256)
        ensures
            self.block_ctx.excess_blob_gas matches Some(e) ==> r@ == match fake_exponential_spec(
                MIN_BLOB_GASPRICE as nat,
                e@,
                BLOB_BASE_FEE_UPDATE_FRACTION as nat,
            ) {
                Some(v) => v,
                None => (pow256() - 1) as nat,
            },
            self.block_ctx.excess_blob_gas is None ==> r@ == 0,
    {
        match self.block_ctx.excess_blob_gas {
            Some(excess) => blob_gas_price(excess),
            None => U256::zero(),
        }
    }

    /// A host one frame deeper, or `None` at the maximum depth.
    fn child(&self) -> (r: Option<RecursiveHost>)
        ensures
            self.depth >= self.max_depth <==> r is None,
            r matches Some(c) ==> one_deeper(*self, c),
    {
        if self.depth >= self.max_depth {
            return None;
        }
        let mut hashes: Vec<crate::types::Hash> = Vec::new();
        let mut i: usize = 0;
        while i < self.recent_block_hashes.len()
            invariant
                i <= self.recent_block_hashes@.len(),
                hashes@ == self.recent_block_hashes@.subrange(0, i as int),
            decreases self.recent_block_hashes@.len() - i,
        {
            hashes.push(self.recent_block_hashes[i]);
            i = i + 1;
            proof {
                assert(hashes@ =~= self.recent_block_hashes@.subrange(0, i as int));
            }
        }
        proof {
            assert(hashes@ =~= self.recent_block_hashes@);
        }
        Some(RecursiveHost {
            max_depth: self.max_depth,
            depth: self.depth + 1,
            block_number: self.block_number,
            parent_hash: self.parent_hash,
            recent_block_hashes: hashes,
            block_ctx: self.block_ctx,
            tx_ctx: self.tx_ctx.duplicate(),
        })
    }
}

// =============================================================================
// Value transfer
// =============================================================================

/// The balance of an account, as a number.
pub open spec fn balance_of(balances: Map<Address, U256>, a: Address) -> nat {
    word_at(balances, a)@
}

/// `after` is `before` with `value` moved from `from` to `to`: the sender loses
/// it, the recipient gains it (saturating at the largest word), and every other
/// account keeps its balance.
pub open spec fn transferred(
    before: Map<Address, U256>,
    after: Map<Address, U256>,
    from: Address,
    to: Address,
    value: nat,
) -> bool {
    &&& forall|a: Address|
        a != from && a != to ==> #[trigger] after.contains_key(a) == before.contains_key(a) && (
        before.contains_key(a) ==> after[a] == before[a])
    &&& after.contains_key(from) && after.contains_key(to)
    &&& if from == to {
        balance_of(after, from) == balance_of(before, from)
    } else {
        &&& balance_of(after, from) == balance_of(before, from) - value
        &&& balance_of(after, to) == if balance_of(before, to) + value < pow256() {
            balance_of(before, to) + value
        } else {
            (pow256() - 1) as nat
        }
    }
}

/// A transfer between two accounts moves value without creating or destroying
/// any, unless the recipient's balance would pass the largest word.
pub proof fn lemma_transfer_conserves(
    before: Map<Address, U256>,
    after: Map<Address, U256>,
    from: Address,
    to: Address,
    value: nat,
)
    requires
        transferred(before, after, from, to, value),
        value <= balance_of(before, from),
        balance_of(before, to) + value < pow256(),
    ensures
        balance_of(after, from) + balance_of(after, to) == balance_of(before, from) + balance_of(
            before,
            to,
        ),
{
}

/// Moves `value` from `from` to `to` when `from` holds at least that much, and
/// reports whether it did; a zero value moves nothing and always succeeds.
pub fn transfer_value<S: State>(state: &mut S, from: &Address, to: &Address, value: &U256) -> (r:
    bool)
    ensures
        r == (value@ <= balance_of(old(state).balances(), *from)),
        !r || value@ == 0 ==> *final(state) == *old(state),
        r && value@ != 0 ==> transferred(
            old(state).balances(),
            final(state).balances(),
            *from,
            *to,
            value@,
        ) && final(state).nonces() == old(state).nonces() && final(state).codes() == old(
            state,
        ).codes() && final(state).storage() == old(state).storage() && final(state).transient()
            == old(state).transient() && final(state).selfdestructs() == old(
            state,
        ).selfdestructs(),
{
    if value.is_zero() {
        return true;
    }
    let from_balance = state.get_balance(from);
    if from_balance.lt(value) {
        return false;
    }
    state.set_balance(from, from_balance.saturating_sub(*value));
    let to_balance = state.get_balance(to);
    state.set_balance(to, to_balance.saturating_add(*value));
    true
}

// =============================================================================
// Nested execution
// =============================================================================

/// The address a creation by `caller` deploys to: CREATE2's when a salt is given,
/// else CREATE's with the caller's nonce less one (the nonce was already raised).
pub open spec fn creation_address(
    caller: Address,
    nonce: nat,
    salt: Option<U256>,
    init_code: Seq<u8>,
) -> Seq<u8> {
    match salt {
        Some(s) => create2_address_spec(caller@, s@, init_code),
        None => create_address_spec(caller@, if nonce >= 1 { (nonce - 1) as nat } else { 0 }),
    }
}

/// A nested machine to run: its code, gas, starting state, host one frame
/// deeper, and contexts.
pub struct NestedFrame<S> {
    /// Code to run.
    pub code: Vec<u8>,
    /// Gas forwarded.
    pub gas: u64,
    /// The state the nested machine starts from (value already moved).
    pub state: S,
    /// The host of the nested machine, one frame deeper.
    pub host: RecursiveHost,
    /// Block context.
    pub block_ctx: BlockContext,
    /// Transaction context.
    pub tx_ctx: TxContext,
    /// Call context: the executing account, caller, value and input.
    pub call_ctx: CallContext,
}

/// What a call through the recursive host comes to before any nested code runs:
/// an answer already, or a nested machine to run.
pub enum CallPlan<S> {
    /// The call is answered without running code.
    Done(CallResult),
    /// The callee's code must run in this frame.
    Run(NestedFrame<S>),
}

/// What a creation through the recursive host comes to before the init code runs.
pub enum CreatePlan<S> {
    /// The creation is answered without running code.
    Done(CreateResult),
    /// The init code must run in this frame; the new account's address is given.
    Run(NestedFrame<S>, Address),
}

/// `c` is the host `h` one frame deeper: the same depth limit, block hashes and
/// block and transaction contexts, and a depth one greater.
pub open spec fn one_deeper(h: RecursiveHost, c: RecursiveHost) -> bool {
    &&& c.depth == h.depth + 1
    &&& c.max_depth == h.max_depth
    &&& c.block_number == h.block_number
    &&& c.parent_hash == h.parent_hash
    &&& c.recent_block_hashes@ == h.recent_block_hashes@
    &&& c.block_ctx == h.block_ctx
    &&& same_tx_ctx(c.tx_ctx, h.tx_ctx)
}

/// A nested frame planned by the host `h` on the state `s`: it runs in `h`'s
/// block and transaction contexts under `h` one frame deeper, and its state keeps
/// `s`'s nonces, code, storage, transient storage and self-destructs.
pub open spec fn frame_of<S: State>(h: RecursiveHost, s: S, f: NestedFrame<S>) -> bool {
    &&& f.block_ctx == h.block_ctx
    &&& same_tx_ctx(f.tx_ctx, h.tx_ctx)
    &&& one_deeper(h, f.host)
    &&& f.state.nonces() == s.nonces()
    &&& f.state.codes() == s.codes()
    &&& f.state.storage() == s.storage()
    &&& f.state.transient() == s.transient()
    &&& f.state.selfdestructs() == s.selfdestructs()
}

impl RecursiveHost {
    /// The first half of a call: fails at the maximum depth (using all the gas
    /// forwarded) or when the caller cannot pay the value (using none); a call to
    /// an account without code only moves the value, in `state`; otherwise the
    /// callee's code is to run one frame deeper, on a copy of `state` to which the
    /// value was moved.
    pub fn plan_call<S: State>(&self, state: &mut S, msg: CallMessage) -> (r: CallPlan<S>)
        ensures
            self.depth >= self.max_depth ==> (r matches CallPlan::Done(res) && !res.success
                && res.gas_used == msg.gas && res.return_data@.len() == 0) && *final(state)
                == *old(state),
            self.depth < self.max_depth && msg.value@ > balance_of(
                old(state).balances(),
                msg.caller,
            ) ==> (r matches CallPlan::Done(res) && !res.success && res.gas_used == 0
                && res.return_data@.len() == 0) && *final(state) == *old(state),
            self.depth < self.max_depth && msg.value@ <= balance_of(old(state).balances(), msg.caller)
                && code_at(old(state).codes(), msg.code_address).len() == 0 ==> (r matches CallPlan::Done(res)
                && res.success && res.gas_used == 0 && res.return_data@.len() == 0) && (msg.value@
                == 0 ==> *final(state) == *old(state)) && (msg.value@ != 0 ==> transferred(
                old(state).balances(),
                final(state).balances(),
                msg.caller,
                msg.address,
                msg.value@,
            )),
            r matches CallPlan::Run(f) ==> {
                &&& self.depth < self.max_depth
                &&& msg.value@ <= balance_of(old(state).balances(), msg.caller)
                &&& *final(state) == *old(state)
                &&& f.code@ == code_at(old(state).codes(), msg.code_address)
                &&& f.code@.len() > 0
                &&& f.gas == msg.gas
                &&& frame_of(*self, *old(state), f)
                &&& f.call_ctx.address == msg.address && f.call_ctx.caller == msg.caller
                &&& f.call_ctx.call_value == msg.value && f.call_ctx.call_data@ == msg.input@
                &&& msg.value@ == 0 ==> f.state.balances() == old(state).balances()
                &&& msg.value@ != 0 ==> transferred(
                    old(state).balances(),
                    f.state.balances(),
                    msg.caller,
                    msg.address,
                    msg.value@,
                )
            },
    {
        let child_host = match self.child() {
            Some(c) => c,
            None => {
                return CallPlan::Done(
                    CallResult { success: false, return_data: Vec::new(), gas_used: msg.gas },
                );
            },
        };
        let code = crate::types::bytes_to_vec(state.get_code(&msg.code_address));
        if code.len() == 0 {
            if !transfer_value(state, &msg.caller, &msg.address, &msg.value) {
                return CallPlan::Done(
                    CallResult { success: false, return_data: Vec::new(), gas_used: 0 },
                );
            }
            return CallPlan::Done(CallResult { success: true, return_data: Vec::new(), gas_used: 0 });
        }
        let mut call_state = state.duplicate();
        if !transfer_value(&mut call_state, &msg.caller, &msg.address, &msg.value) {
            return CallPlan::Done(CallResult { success: false, return_data: Vec::new(), gas_used: 0 });
        }
        CallPlan::Run(
            NestedFrame {
                code,
                gas: msg.gas,
                state: call_state,
                host: child_host,
                block_ctx: self.block_ctx,
                tx_ctx: self.tx_ctx.duplicate(),
                call_ctx: CallContext {
                    address: msg.address,
                    caller: msg.caller,
                    call_value: msg.value,
                    call_data: msg.input,
                },
            },
        )
    }

    /// The second half of a call: the nested machine's outcome and final state.
    /// On success the caller's state becomes the callee's; a failed run uses all
    /// the gas forwarded and returns nothing.
    pub fn finish_call<S: State>(
        state: &mut S,
        gas: u64,
        outcome: Result<ExecutionResult, EvmError>,
        nested_state: S,
    ) -> (r: CallResult)
        ensures
            outcome matches Ok(res) ==> (res.success ==> r.success && r.gas_used == res.gas_used
                && r.return_data@ == res.return_data@ && *final(state) == nested_state),
            outcome matches Ok(res) ==> (!res.success ==> !r.success && r.gas_used == res.gas_used
                && r.return_data@ == res.return_data@ && *final(state) == *old(state)),
            outcome is Err ==> !r.success && r.gas_used == gas && r.return_data@.len() == 0
                && *final(state) == *old(state),
    {
        match outcome {
            Ok(res) => {
                if res.success {
                    *state = nested_state;
                }
                CallResult { success: res.success, return_data: res.return_data, gas_used: res.gas_used }
            },
            Err(_) => CallResult { success: false, return_data: Vec::new(), gas_used: gas },
        }
    }

    /// The first half of a creation: fails at the maximum depth (using all the gas
    /// forwarded) or when the caller cannot pay the value (using none); otherwise
    /// the init code is to run one frame deeper, at the new address, on a copy of
    /// `state` to which the value was moved.
    pub fn plan_create<S: State>(&self, state: &S, msg: CreateMessage) -> (r: CreatePlan<S>)
        ensures
            self.depth >= self.max_depth ==> (r matches CreatePlan::Done(res) && !res.success
                && res.address is None && res.gas_used == msg.gas && res.return_data@.len() == 0),
            self.depth < self.max_depth && msg.value@ > balance_of(state.balances(), msg.caller)
                ==> (r matches CreatePlan::Done(res) && !res.success && res.address is None
                && res.gas_used == 0 && res.return_data@.len() == 0),
            r matches CreatePlan::Run(f, a) ==> {
                &&& self.depth < self.max_depth
                &&& msg.value@ <= balance_of(state.balances(), msg.caller)
                &&& a@ == creation_address(
                    msg.caller,
                    word_at(state.nonces(), msg.caller)@,
                    msg.salt,
                    msg.init_code@,
                )
                &&& f.code@ == msg.init_code@
                &&& f.gas == msg.gas
                &&& frame_of(*self, *state, f)
                &&& f.call_ctx.address == a && f.call_ctx.caller == msg.caller
                &&& f.call_ctx.call_value == msg.value && f.call_ctx.call_data@.len() == 0
                &&& msg.value@ == 0 ==> f.state.balances() == state.balances()
                &&& msg.value@ != 0 ==> transferred(
                    state.balances(),
                    f.state.balances(),
                    msg.caller,
                    a,
                    msg.value@,
                )
            },
            self.depth < self.max_depth && msg.value@ <= balance_of(state.balances(), msg.caller)
                ==> r is Run,
    {
        let child_host = match self.child() {
            Some(c) => c,
            None => {
                return CreatePlan::Done(
                    CreateResult {
                        success: false,
                        address: None,
                        return_data: Vec::new(),
                        gas_used: msg.gas,
                    },
                );
            },
        };
        let nonce = state.get_nonce(&msg.caller);
        let contract_address = match msg.salt {
            Some(salt) => compute_create2_address(&msg.caller, &salt, msg.init_code.as_slice()),
            None => compute_create_address(&msg.caller, nonce.saturating_sub(U256::one())),
        };
        let mut create_state = state.duplicate();
        if !transfer_value(&mut create_state, &msg.caller, &contract_address, &msg.value) {
            return CreatePlan::Done(
                CreateResult { success: false, address: None, return_data: Vec::new(), gas_used: 0 },
            );
        }
        CreatePlan::Run(
            NestedFrame {
                code: msg.init_code,
                gas: msg.gas,
                state: create_state,
                host: child_host,
                block_ctx: self.block_ctx,
                tx_ctx: self.tx_ctx.duplicate(),
                call_ctx: CallContext {
                    address: contract_address,
                    caller: msg.caller,
                    call_value: msg.value,
                    call_data: Vec::new(),
                },
            },
            contract_address,
        )
    }

    /// The second half of a creation. A run that returns code deploys it at
    /// `address`, and the creator's state becomes the nested one; code starting with
    /// 0xEF is refused (EIP-3541), using all the gas. A run that returns nothing
    /// fails with what it used; a failed run uses all the gas.
    pub fn finish_create<S: State>(
        state: &mut S,
        gas: u64,
        address: Address,
        outcome: Result<ExecutionResult, EvmError>,
        nested_state: S,
    ) -> (r: CreateResult)
        ensures
            outcome matches Ok(res) ==> (res.success && res.return_data@.len() > 0
                && res.return_data@[0] != 0xEF ==> r.success && r.address == Some(address)
                && r.return_data@ == res.return_data@ && r.gas_used == res.gas_used
                && final(state).codes() == nested_state.codes().insert(address, res.return_data@)
                && final(state).balances() == nested_state.balances() && final(state).nonces()
                == nested_state.nonces() && final(state).storage() == nested_state.storage()),
            outcome matches Ok(res) ==> (res.success && res.return_data@.len() > 0
                && res.return_data@[0] == 0xEF ==> !r.success && r.address is None
                && r.return_data@.len() == 0 && r.gas_used == gas && *final(state) == *old(state)),
            outcome matches Ok(res) ==> ((!res.success || res.return_data@.len() == 0) ==> !r.success
                && r.address is None && r.return_data@ == res.return_data@ && r.gas_used
                == res.gas_used && *final(state) == *old(state)),
            outcome is Err ==> !r.success && r.address is None && r.return_data@.len() == 0
                && r.gas_used == gas && *final(state) == *old(state),
    {
        match outcome {
            Ok(res) => {
                if res.success && res.return_data.len() > 0 {
                    if res.return_data[0] == 0xEF {
                        return CreateResult {
                            success: false,
                            address: None,
                            return_data: Vec::new(),
                            gas_used: gas,
                        };
                    }
                    let mut final_state = nested_state;
                    final_state.set_code(
                        &address,
                        crate::types::bytes_to_vec(res.return_data.as_slice()),
                    );
                    *state = final_state;
                    CreateResult {
                        success: true,
                        address: Some(address),
                        return_data: res.return_data,
                        gas_used: res.gas_used,
                    }
                } else {
                    CreateResult {
                        success: false,
                        address: None,
                        return_data: res.return_data,
                        gas_used: res.gas_used,
                    }
                }
            },
            Err(_) => CreateResult {
                success: false,
                address: None,
                return_data: Vec::new(),
                gas_used: gas,
            },
        }
    }
}

} // verus!
