//! World state: accounts (balance, nonce, code), persistent and transient
//! storage, and the self-destructs recorded during execution.

use vstd::prelude::*;
use crate::types::{Address, U256};

verus! {

/// The map described by a list of (key, value) writes, later writes winning.
pub open spec fn writes_map(s: Seq<(U256, U256)>) -> Map<U256, U256>
    decreases s.len(),
{
    if s.len() == 0 {
        Map::empty()
    } else {
        writes_map(s.drop_last()).insert(s.last().0, s.last().1)
    }
}

/// The zero word.
pub open spec fn zero_word() -> U256 {
    U256 { l0: 0, l1: 0, l2: 0, l3: 0 }
}

/// The value stored under `key`: zero when nothing was written.
pub open spec fn slot(m: Map<U256, U256>, key: U256) -> U256 {
    if m.contains_key(key) {
        m[key]
    } else {
        zero_word()
    }
}

/// A slot reads back the value last written to it; writing one slot leaves every
/// other slot as it was. Writing zero makes the slot read as zero, as if it had
/// never been written.
pub proof fn lemma_read_own_write(m: Map<U256, U256>, key: U256, value: U256, other: U256)
    ensures
        slot(m.insert(key, value), key) == value,
        other != key ==> slot(m.insert(key, value), other) == slot(m, other),
{
}

/// The last write of `k` decides its value.
proof fn lemma_writes_map_last(s: Seq<(U256, U256)>, j: int, k: U256)
    requires
        0 <= j < s.len(),
        s[j].0 == k,
        forall|i: int| j < i < s.len() ==> s[i].0 != k,
    ensures
        writes_map(s).contains_key(k),
        writes_map(s)[k] == s[j].1,
    decreases s.len(),
{
    if j < s.len() - 1 {
        lemma_writes_map_last(s.drop_last(), j, k);
    }
}

/// A key never written is absent from the map.
proof fn lemma_writes_map_absent(s: Seq<(U256, U256)>, k: U256)
    requires
        forall|i: int| 0 <= i < s.len() ==> s[i].0 != k,
    ensures
        !writes_map(s).contains_key(k),
    decreases s.len(),
{
    if s.len() > 0 {
        lemma_writes_map_absent(s.drop_last(), k);
    }
}

/// Overwriting the last write of `k` in place is inserting `k` into the map.
proof fn lemma_writes_map_update(s: Seq<(U256, U256)>, j: int, k: U256, v: U256)
    requires
        0 <= j < s.len(),
        s[j].0 == k,
        forall|i: int| j < i < s.len() ==> s[i].0 != k,
    ensures
        writes_map(s.update(j, (k, v))) == writes_map(s).insert(k, v),
    decreases s.len(),
{
    let t = s.update(j, (k, v));
    if j == s.len() - 1 {
        assert(t.drop_last() =~= s.drop_last());
        assert(writes_map(t) =~= writes_map(s).insert(k, v));
    } else {
        assert(t.drop_last() =~= s.drop_last().update(j, (k, v)));
        lemma_writes_map_update(s.drop_last(), j, k, v);
        assert(writes_map(t) =~= writes_map(s).insert(k, v));
    }
}

/// Contract storage: a map from 256-bit keys to 256-bit values where every key not
/// written reads as zero. Its view is the map of written keys.
#[derive(Debug, Clone)]
pub struct Storage {
    entries: Vec<(U256, U256)>,
}

impl View for Storage {
    type V = Map<U256, U256>;

    closed spec fn view(&self) -> Map<U256, U256> {
        writes_map(self.entries@)
    }
}

impl Storage {
    /// Empty storage: every key reads as zero.
    pub fn new() -> (r: Storage)
        ensures
            r@ == Map::<U256, U256>::empty(),
    {
        Storage { entries: Vec::new() }
    }

    /// Position of the last write of `key`, if any.
    fn find(&self, key: &U256) -> (r: Option<usize>)
        ensures
            r matches Some(j) ==> j < self.entries@.len() && self.entries@[j as int].0 == *key
                && forall|i: int| j < i < self.entries@.len() ==> self.entries@[i].0 != *key,
            r is None ==> forall|i: int| 0 <= i < self.entries@.len() ==> self.entries@[i].0 != *key,
    {
        let mut i = self.entries.len();
        while i > 0
            invariant
                i <= self.entries@.len(),
                forall|m: int| i <= m < self.entries@.len() ==> self.entries@[m].0 != *key,
            decreases i,
        {
            i = i - 1;
            if self.entries[i].0.eq_word(key) {
                return Some(i);
            }
        }
        None
    }

    /// The value under `key`; zero when it was never written.
    pub fn get(&self, key: &U256) -> (r: U256)
        ensures
            r == slot(self@, *key),
    {
        match self.find(key) {
            Some(j) => {
                proof {
                    lemma_writes_map_last(self.entries@, j as int, *key);
                }
                self.entries[j].1
            },
            None => {
                proof {
                    lemma_writes_map_absent(self.entries@, *key);
                }
                U256::zero()
            },
        }
    }

    /// Writes `value` under `key`.
    pub fn set(&mut self, key: &U256, value: U256)
        ensures
            final(self)@ == old(self)@.insert(*key, value),
    {
        match self.find(key) {
            Some(j) => {
                proof {
                    lemma_writes_map_update(self.entries@, j as int, *key, value);
                }
                self.entries.set(j, (*key, value));
            },
            None => {
                let ghost s = self.entries@;
                self.entries.push((*key, value));
                proof {
                    assert(self.entries@.drop_last() =~= s);
                }
            },
        }
    }
}

// =============================================================================
// Keys and association lists
// =============================================================================

/// Keys that can be compared for equality in executable code.
pub trait WorldKey: Sized {
    /// Whether two keys are equal.
    fn same(&self, other: &Self) -> (r: bool)
        ensures
            r == (*self == *other),
    ;
}

impl WorldKey for U256 {
    fn same(&self, other: &Self) -> (r: bool) {
        self.eq_word(other)
    }
}

impl WorldKey for Address {
    fn same(&self, other: &Self) -> (r: bool) {
        self.eq_addr(other)
    }
}

impl WorldKey for (Address, U256) {
    fn same(&self, other: &Self) -> (r: bool) {
        self.0.eq_addr(&other.0) && self.1.eq_word(&other.1)
    }
}

/// The map described by a list of (key, value) writes, later writes winning.
pub open spec fn assoc_map<K, V>(s: Seq<(K, V)>) -> Map<K, V>
    decreases s.len(),
{
    if s.len() == 0 {
        Map::empty()
    } else {
        assoc_map(s.drop_last()).insert(s.last().0, s.last().1)
    }
}

/// The last write of `k` decides its value.
proof fn lemma_assoc_last<K, V>(s: Seq<(K, V)>, j: int, k: K)
    requires
        0 <= j < s.len(),
        s[j].0 == k,
        forall|i: int| j < i < s.len() ==> s[i].0 != k,
    ensures
        assoc_map(s).contains_key(k),
        assoc_map(s)[k] == s[j].1,
    decreases s.len(),
{
    if j < s.len() - 1 {
        lemma_assoc_last(s.drop_last(), j, k);
    }
}

/// A key never written is absent.
proof fn lemma_assoc_absent<K, V>(s: Seq<(K, V)>, k: K)
    requires
        forall|i: int| 0 <= i < s.len() ==> s[i].0 != k,
    ensures
        !assoc_map(s).contains_key(k),
    decreases s.len(),
{
    if s.len() > 0 {
        lemma_assoc_absent(s.drop_last(), k);
    }
}

/// Overwriting the last write of `k` is inserting `k`.
proof fn lemma_assoc_update<K, V>(s: Seq<(K, V)>, j: int, k: K, v: V)
    requires
        0 <= j < s.len(),
        s[j].0 == k,
        forall|i: int| j < i < s.len() ==> s[i].0 != k,
    ensures
        assoc_map(s.update(j, (k, v))) == assoc_map(s).insert(k, v),
    decreases s.len(),
{
    let t = s.update(j, (k, v));
    if j == s.len() - 1 {
        assert(t.drop_last() =~= s.drop_last());
        assert(assoc_map(t) =~= assoc_map(s).insert(k, v));
    } else {
        assert(t.drop_last() =~= s.drop_last().update(j, (k, v)));
        lemma_assoc_update(s.drop_last(), j, k, v);
        assert(assoc_map(t) =~= assoc_map(s).insert(k, v));
    }
}

/// A finite map held as a list of writes.
#[derive(Debug)]
pub struct AssocList<K, V> {
    entries: Vec<(K, V)>,
}

impl<K: WorldKey, V> AssocList<K, V> {
    /// The map held.
    pub closed spec fn map(&self) -> Map<K, V> {
        assoc_map(self.entries@)
    }

    /// The empty map.
    pub fn new() -> (r: Self)
        ensures
            r.map() == Map::<K, V>::empty(),
    {
        AssocList { entries: Vec::new() }
    }

    /// Position of the last write of `key`.
    fn find(&self, key: &K) -> (r: Option<usize>)
        ensures
            r matches Some(j) ==> j < self.entries@.len() && self.entries@[j as int].0 == *key
                && forall|i: int| j < i < self.entries@.len() ==> self.entries@[i].0 != *key,
            r is None ==> forall|i: int| 0 <= i < self.entries@.len() ==> self.entries@[i].0 != *key,
    {
        let mut i = self.entries.len();
        while i > 0
            invariant
                i <= self.entries@.len(),
                forall|m: int| i <= m < self.entries@.len() ==> self.entries@[m].0 != *key,
            decreases i,
        {
            i = i - 1;
            if self.entries[i].0.same(key) {
                return Some(i);
            }
        }
        None
    }

    /// The value under `key`, if any.
    pub fn get(&self, key: &K) -> (r: Option<&V>)
        ensures
            r matches Some(v) ==> self.map().contains_key(*key) && *v == self.map()[*key],
            r is None ==> !self.map().contains_key(*key),
    {
        match self.find(key) {
            Some(j) => {
                proof {
                    lemma_assoc_last(self.entries@, j as int, *key);
                }
                Some(&self.entries[j].1)
            },
            None => {
                proof {
                    lemma_assoc_absent(self.entries@, *key);
                }
                None
            },
        }
    }

    /// Writes `value` under `key`.
    pub fn insert(&mut self, key: K, value: V)
        ensures
            final(self).map() == old(self).map().insert(key, value),
    {
        match self.find(&key) {
            Some(j) => {
                proof {
                    lemma_assoc_update(self.entries@, j as int, key, value);
                }
                self.entries.set(j, (key, value));
            },
            None => {
                let ghost s = self.entries@;
                self.entries.push((key, value));
                proof {
                    assert(self.entries@.drop_last() =~= s);
                }
            },
        }
    }
}

impl<K: WorldKey + Copy, V: Copy> AssocList<K, V> {
    /// A copy of the list.
    pub fn duplicate(&self) -> (r: Self)
        ensures
            r.map() == self.map(),
    {
        let mut entries: Vec<(K, V)> = Vec::new();
        let mut i: usize = 0;
        while i < self.entries.len()
            invariant
                i <= self.entries@.len(),
                entries@ == self.entries@.subrange(0, i as int),
            decreases self.entries@.len() - i,
        {
            let e = self.entries[i];
            entries.push(e);
            i = i + 1;
            proof {
                assert(entries@ =~= self.entries@.subrange(0, i as int));
            }
        }
        proof {
            assert(entries@ =~= self.entries@);
        }
        AssocList { entries }
    }
}

// =============================================================================
// The state interface
// =============================================================================

/// A word read from a map of words: zero when absent.
pub open spec fn word_at<K>(m: Map<K, U256>, k: K) -> U256 {
    if m.contains_key(k) {
        m[k]
    } else {
        zero_word()
    }
}

/// A code read from a map of codes: empty when absent.
pub open spec fn code_at(m: Map<Address, Seq<u8>>, a: Address) -> Seq<u8> {
    if m.contains_key(a) {
        m[a]
    } else {
        Seq::empty()
    }
}

/// The world state an execution reads and writes: balances, nonces and codes of
/// accounts, persistent and transient storage, and recorded self-destructs.
/// Every word never written reads as zero and every code never written as empty.
pub trait State: Sized {
    /// Balances written so far.
    spec fn balances(&self) -> Map<Address, U256>;

    /// Nonces written so far.
    spec fn nonces(&self) -> Map<Address, U256>;

    /// Codes written so far.
    spec fn codes(&self) -> Map<Address, Seq<u8>>;

    /// Persistent storage, by (account, key).
    spec fn storage(&self) -> Map<(Address, U256), U256>;

    /// Transient storage, by (account, key).
    spec fn transient(&self) -> Map<(Address, U256), U256>;

    /// Self-destructs recorded, as (account, beneficiary), in order.
    spec fn selfdestructs(&self) -> Seq<(Address, Address)>;

    /// Balance of an account (zero if never set).
    fn get_balance(&self, address: &Address) -> (r: U256)
        ensures
            r == word_at(self.balances(), *address),
    ;

    /// Sets the balance of an account.
    fn set_balance(&mut self, address: &Address, value: U256)
        ensures
            final(self).balances() == old(self).balances().insert(*address, value),
            final(self).nonces() == old(self).nonces(),
            final(self).codes() == old(self).codes(),
            final(self).storage() == old(self).storage(),
            final(self).transient() == old(self).transient(),
            final(self).selfdestructs() == old(self).selfdestructs(),
    ;

    /// Nonce of an account (zero if never set).
    fn get_nonce(&self, address: &Address) -> (r: U256)
        ensures
            r == word_at(self.nonces(), *address),
    ;

    /// Sets the nonce of an account.
    fn set_nonce(&mut self, address: &Address, value: U256)
        ensures
            final(self).nonces() == old(self).nonces().insert(*address, value),
            final(self).balances() == old(self).balances(),
            final(self).codes() == old(self).codes(),
            final(self).storage() == old(self).storage(),
            final(self).transient() == old(self).transient(),
            final(self).selfdestructs() == old(self).selfdestructs(),
    ;

    /// Code of an account (empty if never set).
    fn get_code(&self, address: &Address) -> (r: &[u8])
        ensures
            r@ == code_at(self.codes(), *address),
    ;

    /// Sets the code of an account.
    fn set_code(&mut self, address: &Address, code: Vec<u8>)
        ensures
            final(self).codes() == old(self).codes().insert(*address, code@),
            final(self).balances() == old(self).balances(),
            final(self).nonces() == old(self).nonces(),
            final(self).storage() == old(self).storage(),
            final(self).transient() == old(self).transient(),
            final(self).selfdestructs() == old(self).selfdestructs(),
    ;

    /// Whether any of the account's balance, nonce or code was ever set.
    fn account_exists(&self, address: &Address) -> (r: bool)
        ensures
            r == (self.balances().contains_key(*address) || self.nonces().contains_key(*address)
                || self.codes().contains_key(*address)),
    ;

    /// Persistent storage of an account under `key` (zero if never written).
    fn sload(&self, address: &Address, key: &U256) -> (r: U256)
        ensures
            r == word_at(self.storage(), (*address, *key)),
    ;

    /// Writes persistent storage.
    fn sstore(&mut self, address: &Address, key: &U256, value: U256)
        ensures
            final(self).storage() == old(self).storage().insert((*address, *key), value),
            final(self).balances() == old(self).balances(),
            final(self).nonces() == old(self).nonces(),
            final(self).codes() == old(self).codes(),
            final(self).transient() == old(self).transient(),
            final(self).selfdestructs() == old(self).selfdestructs(),
    ;

    /// Transient storage of an account under `key` (zero if never written).
    fn tload(&self, address: &Address, key: &U256) -> (r: U256)
        ensures
            r == word_at(self.transient(), (*address, *key)),
    ;

    /// Writes transient storage.
    fn tstore(&mut self, address: &Address, key: &U256, value: U256)
        ensures
            final(self).transient() == old(self).transient().insert((*address, *key), value),
            final(self).balances() == old(self).balances(),
            final(self).nonces() == old(self).nonces(),
            final(self).codes() == old(self).codes(),
            final(self).storage() == old(self).storage(),
            final(self).selfdestructs() == old(self).selfdestructs(),
    ;

    /// Records that `address` self-destructed in favour of `beneficiary`.
    fn selfdestruct(&mut self, address: &Address, beneficiary: &Address)
        ensures
            final(self).selfdestructs() == old(self).selfdestructs().push((*address, *beneficiary)),
            final(self).balances() == old(self).balances(),
            final(self).nonces() == old(self).nonces(),
            final(self).codes() == old(self).codes(),
            final(self).storage() == old(self).storage(),
            final(self).transient() == old(self).transient(),
    ;

    /// An independent copy of the state.
    fn duplicate(&self) -> (r: Self)
        ensures
            r.balances() == self.balances(),
            r.nonces() == self.nonces(),
            r.codes() == self.codes(),
            r.storage() == self.storage(),
            r.transient() == self.transient(),
            r.selfdestructs() == self.selfdestructs(),
    ;
}

// =============================================================================
// In-memory state
// =============================================================================

/// World state held in memory.
#[derive(Debug)]
pub struct InMemoryState {
    balances: AssocList<Address, U256>,
    nonces: AssocList<Address, U256>,
    codes: AssocList<Address, Vec<u8>>,
    storage: AssocList<(Address, U256), U256>,
    transient: AssocList<(Address, U256), U256>,
    selfdestructs: Vec<(Address, Address)>,
}

/// The views of a list of codes.
pub open spec fn code_views(m: Map<Address, Vec<u8>>) -> Map<Address, Seq<u8>> {
    m.map_values(|v: Vec<u8>| v@)
}

impl InMemoryState {
    /// An empty state: no accounts, no storage.
    pub fn new() -> (r: InMemoryState)
        ensures
            r.balances() == Map::<Address, U256>::empty(),
            r.nonces() == Map::<Address, U256>::empty(),
            r.codes() == Map::<Address, Seq<u8>>::empty(),
            r.storage() == Map::<(Address, U256), U256>::empty(),
            r.transient() == Map::<(Address, U256), U256>::empty(),
            r.selfdestructs() == Seq::<(Address, Address)>::empty(),
    {
        let r = InMemoryState {
            balances: AssocList::new(),
            nonces: AssocList::new(),
            codes: AssocList::new(),
            storage: AssocList::new(),
            transient: AssocList::new(),
            selfdestructs: Vec::new(),
        };
        proof {
            assert(code_views(r.codes.map()) =~= Map::<Address, Seq<u8>>::empty());
        }
        r
    }

    /// Increments the nonce of an account by one (wrapping at 2^256).
    pub fn increment_nonce(&mut self, address: &Address)
        ensures
            final(self).nonces() == old(self).nonces().insert(
                *address,
                final(self).nonces()[*address],
            ),
            final(self).nonces()[*address]@ == (word_at(old(self).nonces(), *address)@ + 1)
                % crate::types::pow256(),
            final(self).balances() == old(self).balances(),
            final(self).codes() == old(self).codes(),
            final(self).storage() == old(self).storage(),
            final(self).transient() == old(self).transient(),
            final(self).selfdestructs() == old(self).selfdestructs(),
    {
        let n = self.get_nonce(address);
        self.set_nonce(address, n.wrapping_add(U256::one()));
    }

    /// The self-destructs recorded, in order.
    pub fn get_selfdestructs(&self) -> (r: &[(Address, Address)])
        ensures
            r@ == self.selfdestructs(),
    {
        self.selfdestructs.as_slice()
    }

    /// Keccak-256 of an account's code (of the empty code if none was set).
    pub fn get_code_hash(&self, address: &Address) -> (r: crate::types::Hash)
        ensures
            r@ == crate::crypto::keccak::keccak256_spec(code_at(self.codes(), *address)),
    {
        crate::crypto::keccak::keccak256(self.get_code(address))
    }
}

impl State for InMemoryState {
    closed spec fn balances(&self) -> Map<Address, U256> {
        self.balances.map()
    }

    closed spec fn nonces(&self) -> Map<Address, U256> {
        self.nonces.map()
    }

    closed spec fn codes(&self) -> Map<Address, Seq<u8>> {
        code_views(self.codes.map())
    }

    closed spec fn storage(&self) -> Map<(Address, U256), U256> {
        self.storage.map()
    }

    closed spec fn transient(&self) -> Map<(Address, U256), U256> {
        self.transient.map()
    }

    closed spec fn selfdestructs(&self) -> Seq<(Address, Address)> {
        self.selfdestructs@
    }

    fn get_balance(&self, address: &Address) -> (r: U256) {
        match self.balances.get(address) {
            Some(v) => *v,
            None => U256::zero(),
        }
    }

    fn set_balance(&mut self, address: &Address, value: U256) {
        self.balances.insert(*address, value);
    }

    fn get_nonce(&self, address: &Address) -> (r: U256) {
        match self.nonces.get(address) {
            Some(v) => *v,
            None => U256::zero(),
        }
    }

    fn set_nonce(&mut self, address: &Address, value: U256) {
        self.nonces.insert(*address, value);
    }

    fn get_code(&self, address: &Address) -> (r: &[u8]) {
        match self.codes.get(address) {
            Some(v) => v.as_slice(),
            None => &[],
        }
    }

    fn set_code(&mut self, address: &Address, code: Vec<u8>) {
        let ghost m0 = self.codes.map();
        let ghost c = code@;
        self.codes.insert(*address, code);
        proof {
            assert(code_views(self.codes.map()) =~= code_views(m0).insert(*address, c));
        }
    }

    fn account_exists(&self, address: &Address) -> (r: bool) {
        self.balances.get(address).is_some() || self.nonces.get(address).is_some()
            || self.codes.get(address).is_some()
    }

    fn sload(&self, address: &Address, key: &U256) -> (r: U256) {
        match self.storage.get(&(*address, *key)) {
            Some(v) => *v,
            None => U256::zero(),
        }
    }

    fn sstore(&mut self, address: &Address, key: &U256, value: U256) {
        self.storage.insert((*address, *key), value);
    }

    fn tload(&self, address: &Address, key: &U256) -> (r: U256) {
        match self.transient.get(&(*address, *key)) {
            Some(v) => *v,
            None => U256::zero(),
        }
    }

    fn tstore(&mut self, address: &Address, key: &U256, value: U256) {
        self.transient.insert((*address, *key), value);
    }

    fn selfdestruct(&mut self, address: &Address, beneficiary: &Address) {
        self.selfdestructs.push((*address, *beneficiary));
    }

    fn duplicate(&self) -> (r: Self) {
        let mut codes: AssocList<Address, Vec<u8>> = AssocList::new();
        let mut i: usize = 0;
        while i < self.codes.entries.len()
            invariant
                i <= self.codes.entries@.len(),
                code_views(codes.map()) == code_views(assoc_map(self.codes.entries@.subrange(0, i as int))),
            decreases self.codes.entries@.len() - i,
        {
            let ghost before = codes.map();
            let key = self.codes.entries[i].0;
            let value = copy_bytes(self.codes.entries[i].1.as_slice());
            codes.insert(key, value);
            proof {
                let pre = self.codes.entries@.subrange(0, i as int);
                let post = self.codes.entries@.subrange(0, i + 1);
                assert(post.drop_last() =~= pre);
                assert(post.last() == self.codes.entries@[i as int]);
                assert(code_views(codes.map()) =~= code_views(before).insert(key, value@));
                assert(code_views(assoc_map(post)) =~= code_views(assoc_map(pre)).insert(
                    key,
                    post.last().1@,
                ));
                assert(code_views(codes.map()) =~= code_views(assoc_map(post)));
            }
            i = i + 1;
        }
        proof {
            assert(self.codes.entries@.subrange(0, self.codes.entries@.len() as int) =~= self.codes.entries@);
        }
        let mut selfdestructs: Vec<(Address, Address)> = Vec::new();
        let mut j: usize = 0;
        while j < self.selfdestructs.len()
            invariant
                j <= self.selfdestructs@.len(),
                selfdestructs@ == self.selfdestructs@.subrange(0, j as int),
            decreases self.selfdestructs@.len() - j,
        {
            selfdestructs.push(self.selfdestructs[j]);
            j = j + 1;
            proof {
                assert(selfdestructs@ =~= self.selfdestructs@.subrange(0, j as int));
            }
        }
        proof {
            assert(selfdestructs@ =~= self.selfdestructs@);
        }
        InMemoryState {
            balances: self.balances.duplicate(),
            nonces: self.nonces.duplicate(),
            codes,
            storage: self.storage.duplicate(),
            transient: self.transient.duplicate(),
            selfdestructs,
        }
    }
}

/// A copy of a byte slice.
fn copy_bytes(s: &[u8]) -> (r: Vec<u8>)
    ensures
        r@ == s@,
{
    let mut v: Vec<u8> = Vec::new();
    let mut i: usize = 0;
    while i < s.len()
        invariant
            i <= s@.len(),
            v@ == s@.subrange(0, i as int),
        decreases s@.len() - i,
    {
        v.push(s[i]);
        i = i + 1;
        proof {
            assert(v@ =~= s@.subrange(0, i as int));
        }
    }
    proof {
        assert(v@ =~= s@);
    }
    v
}

impl Default for InMemoryState {
    fn default() -> (r: InMemoryState)
        ensures
            r.balances() == Map::<Address, U256>::empty(),
            r.storage() == Map::<(Address, U256), U256>::empty(),
    {
        InMemoryState::new()
    }
}

} // verus!
