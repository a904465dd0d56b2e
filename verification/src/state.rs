//! The canonical blockchain state: account balances and nonces, the block
//! height and the state root.
//!
//! Balances and nonces are association vectors with pairwise-distinct
//! addresses; their mathematical model is a finite map, with absent
//! addresses reading as zero.

use vstd::prelude::*;
use vstd::bytes::spec_u64_to_le_bytes;
use crate::bytes::{bytes32_eq, lemma_bytes32_ext};

verus! {

/// One account entry: an address and a value (a balance or a nonce).
#[derive(Clone, Copy, Debug)]
pub struct AccountEntry {
    /// The account address.
    pub addr: [u8; 32],
    /// The stored value.
    pub value: u64,
}

/// Whether the entries carry pairwise-distinct addresses.
pub open spec fn entries_unique(entries: Seq<AccountEntry>) -> bool {
    forall|i: int, j: int| 0 <= i < j < entries.len() ==> entries[i].addr != entries[j].addr
}

/// The finite map held by an association vector; later entries win, which
/// under `entries_unique` is immaterial.
pub open spec fn entries_map(entries: Seq<AccountEntry>) -> Map<[u8; 32], u64>
    decreases entries.len(),
{
    if entries.len() == 0 {
        Map::empty()
    } else {
        entries_map(entries.drop_last()).insert(entries.last().addr, entries.last().value)
    }
}

/// The value stored for an address, zero when absent.
pub open spec fn entries_value(entries: Seq<AccountEntry>, addr: [u8; 32]) -> u64 {
    if entries_map(entries).dom().contains(addr) {
        entries_map(entries)[addr]
    } else {
        0
    }
}

proof fn lemma_entries_map_dom(entries: Seq<AccountEntry>, addr: [u8; 32])
    ensures
        entries_map(entries).dom().contains(addr) <==> (exists|i: int|
            0 <= i < entries.len() && entries[i].addr == addr),
    decreases entries.len(),
{
    if entries.len() > 0 {
        lemma_entries_map_dom(entries.drop_last(), addr);
        if entries.last().addr == addr {
            assert(entries[entries.len() - 1].addr == addr);
        } else if entries_map(entries).dom().contains(addr) {
            let i = choose|i: int|
                0 <= i < entries.drop_last().len() && entries.drop_last()[i].addr == addr;
            assert(entries[i].addr == addr);
        } else {
            if exists|i: int| 0 <= i < entries.len() && entries[i].addr == addr {
                let i = choose|i: int| 0 <= i < entries.len() && entries[i].addr == addr;
                assert(i < entries.len() - 1);
                assert(entries.drop_last()[i].addr == addr);
            }
        }
    }
}

proof fn lemma_entries_map_at(entries: Seq<AccountEntry>, i: int)
    requires
        entries_unique(entries),
        0 <= i < entries.len(),
    ensures
        entries_map(entries).dom().contains(entries[i].addr),
        entries_map(entries)[entries[i].addr] == entries[i].value,
    decreases entries.len(),
{
    if i == entries.len() - 1 {
    } else {
        assert(entries.drop_last()[i] == entries[i]);
        lemma_entries_map_at(entries.drop_last(), i);
        assert(entries[i].addr != entries.last().addr);
    }
}

/// The canonical blockchain state.
pub struct State {
    /// Current block height.
    pub height: u64,
    /// State root hash (recomputed after each block).
    pub state_root: [u8; 32],
    /// Account balances.
    pub balances: Vec<AccountEntry>,
    /// Account nonces for replay protection.
    pub nonces: Vec<AccountEntry>,
}

/// The mathematical value of a state: height, root, and the two maps.
pub ghost struct StateView {
    pub height: u64,
    pub state_root: [u8; 32],
    pub balances: Map<[u8; 32], u64>,
    pub nonces: Map<[u8; 32], u64>,
}

impl View for State {
    type V = StateView;

    open spec fn view(&self) -> StateView {
        StateView {
            height: self.height,
            state_root: self.state_root,
            balances: entries_map(self.balances@),
            nonces: entries_map(self.nonces@),
        }
    }
}

impl Clone for State {
    fn clone(&self) -> (r: Self)
        ensures
            r.height == self.height,
            r.state_root == self.state_root,
            r.balances@ == self.balances@,
            r.nonces@ == self.nonces@,
    {
        State {
            height: self.height,
            state_root: self.state_root,
            balances: clone_entries(&self.balances),
            nonces: clone_entries(&self.nonces),
        }
    }
}

fn clone_entries(entries: &Vec<AccountEntry>) -> (r: Vec<AccountEntry>)
    ensures
        r@ == entries@,
{
    let n = entries.len();
    let mut r: Vec<AccountEntry> = Vec::new();
    let mut i: usize = 0;
    while i < n
        invariant
            0 <= i <= n,
            n == entries@.len(),
            r@ == entries@.take(i as int),
        decreases n - i,
    {
        r.push(entries[i]);
        proof {
            assert(r@ =~= entries@.take(i + 1));
        }
        i += 1;
    }
    proof {
        assert(entries@.take(n as int) =~= entries@);
    }
    r
}

/// Read the value for an address out of an association vector.
fn lookup_entry(entries: &Vec<AccountEntry>, addr: &[u8; 32]) -> (r: u64)
    requires
        entries_unique(entries@),
    ensures
        r == entries_value(entries@, *addr),
{
    let n = entries.len();
    let mut i: usize = 0;
    while i < n
        invariant
            0 <= i <= n,
            n == entries@.len(),
            forall|k: int| 0 <= k < i ==> entries@[k].addr != *addr,
            entries_unique(entries@),
        decreases n - i,
    {
        if bytes32_eq(&entries[i].addr, &addr) {
            proof {
                lemma_bytes32_ext(entries@[i as int].addr, *addr);
                lemma_entries_map_at(entries@, i as int);
            }
            return entries[i].value;
        }
        i += 1;
    }
    proof {
        lemma_entries_map_dom(entries@, *addr);
    }
    0
}

/// Set the value for an address in an association vector: replace the
/// matching entry, or append one.
fn set_entry(entries: &mut Vec<AccountEntry>, addr: &[u8; 32], value: u64)
    requires
        entries_unique(old(entries)@),
    ensures
        entries_unique(final(entries)@),
        entries_map(final(entries)@) == entries_map(old(entries)@).insert(*addr, value),
{
    let n = entries.len();
    let mut out: Vec<AccountEntry> = Vec::new();
    let mut found = false;
    let mut i: usize = 0;
    while i < n
        invariant
            0 <= i <= n,
            n == entries@.len(),
            entries_unique(entries@),
            out@.len() == i,
            forall|k: int|
                0 <= k < i ==> (#[trigger] out@[k]) == (if entries@[k].addr == *addr {
                    AccountEntry { addr: *addr, value }
                } else {
                    entries@[k]
                }),
            found <==> (exists|k: int| 0 <= k < i && entries@[k].addr == *addr),
        decreases n - i,
    {
        if bytes32_eq(&entries[i].addr, &addr) {
            proof {
                lemma_bytes32_ext(entries@[i as int].addr, *addr);
            }
            out.push(AccountEntry { addr: *addr, value });
            found = true;
        } else {
            out.push(entries[i]);
        }
        i += 1;
    }
    if !found {
        out.push(AccountEntry { addr: *addr, value });
    }
    proof {
        lemma_set_entry_model(entries@, out@, *addr, value, found);
    }
    *entries = out;
}

proof fn lemma_set_entry_model(
    old_e: Seq<AccountEntry>,
    new_e: Seq<AccountEntry>,
    addr: [u8; 32],
    value: u64,
    found: bool,
)
    requires
        entries_unique(old_e),
        found <==> (exists|k: int| 0 <= k < old_e.len() && old_e[k].addr == addr),
        found ==> new_e.len() == old_e.len(),
        !found ==> new_e.len() == old_e.len() + 1 && new_e.last() == (AccountEntry { addr, value }),
        forall|k: int|
            0 <= k < old_e.len() ==> (#[trigger] new_e[k]) == (if old_e[k].addr == addr {
                AccountEntry { addr, value }
            } else {
                old_e[k]
            }),
    ensures
        entries_unique(new_e),
        entries_map(new_e) == entries_map(old_e).insert(addr, value),
    decreases old_e.len(),
{
    if !found {
        assert(new_e.drop_last() =~= old_e);
        assert(entries_map(new_e) =~= entries_map(old_e).insert(addr, value));
    } else {
        if old_e.last().addr == addr {
            assert(new_e.drop_last() =~= old_e.drop_last());
            assert(new_e.last() == (AccountEntry { addr, value }));
            assert(entries_map(new_e) =~= entries_map(old_e).insert(addr, value));
        } else {
            let prev = new_e.drop_last();
            let k = choose|k: int| 0 <= k < old_e.len() && old_e[k].addr == addr;
            assert(k < old_e.len() - 1);
            assert(old_e.drop_last()[k].addr == addr);
            lemma_set_entry_model(old_e.drop_last(), prev, addr, value, true);
            assert(new_e.last() == old_e.last());
            assert(entries_map(new_e) =~= entries_map(old_e).insert(addr, value));
        }
    }
}

impl State {
    /// Well-formedness: addresses are pairwise distinct in both vectors.
    pub open spec fn wf(&self) -> bool {
        entries_unique(self.balances@) && entries_unique(self.nonces@)
    }

    /// The balance of an address, zero when absent.
    pub open spec fn spec_balance(&self, addr: [u8; 32]) -> u64 {
        entries_value(self.balances@, addr)
    }

    /// The nonce of an address, zero when absent.
    pub open spec fn spec_nonce(&self, addr: [u8; 32]) -> u64 {
        entries_value(self.nonces@, addr)
    }

    /// Create a new genesis state.
    pub fn new() -> (r: Self)
        ensures
            r.height == 0,
            r.state_root@ == zero_root(),
            r.balances@ == Seq::<AccountEntry>::empty(),
            r.nonces@ == Seq::<AccountEntry>::empty(),
            r.wf(),
    {
        let root = [0u8; 32];
        proof {
            assert(root@ =~= zero_root());
        }
        State { height: 0, state_root: root, balances: Vec::new(), nonces: Vec::new() }
    }

    /// Get the balance for an address.
    pub fn balance(&self, address: &[u8; 32]) -> (r: u64)
        requires
            self.wf(),
        ensures
            r == self.spec_balance(*address),
    {
        lookup_entry(&self.balances, address)
    }

    /// Get the nonce for an address.
    pub fn nonce(&self, address: &[u8; 32]) -> (r: u64)
        requires
            self.wf(),
        ensures
            r == self.spec_nonce(*address),
    {
        lookup_entry(&self.nonces, address)
    }

    /// Set the balance for an address.
    pub fn set_balance(&mut self, address: &[u8; 32], balance: u64)
        requires
            old(self).wf(),
        ensures
            final(self).wf(),
            final(self)@.balances == old(self)@.balances.insert(*address, balance),
            final(self)@.nonces == old(self)@.nonces,
            final(self).nonces@ == old(self).nonces@,
            final(self).height == old(self).height,
            final(self).state_root == old(self).state_root,
    {
        set_entry(&mut self.balances, address, balance);
    }

    /// Increment the nonce for an address.
    pub fn increment_nonce(&mut self, address: &[u8; 32])
        requires
            old(self).wf(),
            old(self).spec_nonce(*address) < u64::MAX,
        ensures
            final(self).wf(),
            final(self)@.nonces == old(self)@.nonces.insert(
                *address,
                (old(self).spec_nonce(*address) + 1) as u64,
            ),
            final(self)@.balances == old(self)@.balances,
            final(self).balances@ == old(self).balances@,
            final(self).height == old(self).height,
            final(self).state_root == old(self).state_root,
    {
        let current = lookup_entry(&self.nonces, address);
        set_entry(&mut self.nonces, address, current + 1);
    }

    /// Compute and store the state root: the placeholder scheme is the
    /// little-endian height followed by 24 zero bytes.
    pub fn compute_state_root(&mut self)
        ensures
            final(self).state_root@ == spec_state_root(old(self).height),
            final(self).height == old(self).height,
            final(self).balances@ == old(self).balances@,
            final(self).nonces@ == old(self).nonces@,
    {
        let le = vstd::bytes::u64_to_le_bytes(self.height);
        let mut root = [0u8; 32];
        let mut i: usize = 0;
        while i < 8
            invariant
                0 <= i <= 8,
                le@ == spec_u64_to_le_bytes(self.height),
                le@.len() == 8,
                root@.len() == 32,
                forall|j: int| 0 <= j < i ==> root@[j] == le@[j],
                forall|j: int| i <= j < 32 ==> root@[j] == 0u8,
            decreases 8 - i,
        {
            vstd::array::ArrayAdditionalExecFns::set(&mut root, i, le[i]);
            i += 1;
        }
        proof {
            assert(root@ =~= spec_state_root(self.height));
        }
        self.state_root = root;
    }
}

/// 32 zero bytes: the genesis state root.
pub open spec fn zero_root() -> Seq<u8> {
    Seq::new(32, |i: int| 0u8)
}

/// The placeholder state root for a height: its little-endian bytes padded
/// with zeros to 32 bytes.
pub open spec fn spec_state_root(height: u64) -> Seq<u8> {
    spec_u64_to_le_bytes(height) + Seq::new(24, |i: int| 0u8)
}

impl Default for State {
    fn default() -> (r: Self)
        ensures
            r.height == 0,
            r.state_root@ == zero_root(),
            r.balances@ == Seq::<AccountEntry>::empty(),
            r.nonces@ == Seq::<AccountEntry>::empty(),
            r.wf(),
    {
        State::new()
    }
}

} // verus!
