//! Validator identity, weighted validator sets, leader rotation and the
//! quorum arithmetic of the consensus protocol.

use vstd::prelude::*;
use vstd::string::StringExecFns;
use crate::bytes::bytes32_eq;
use crate::bytes::bytes64_eq;

verus! {

/// A 32-byte block hash.
pub type BlockHash = [u8; 32];

/// A 32-byte state root.
pub type StateRoot = [u8; 32];

/// A 64-byte signature.
#[derive(Clone, Copy, Debug, Eq)]
pub struct Signature64(pub [u8; 64]);

impl PartialEq for Signature64 {
    fn eq(&self, other: &Signature64) -> (r: bool) {
        let r = bytes64_eq(&self.0, &other.0);
        proof {
            if self.0@ == other.0@ {
                assert(self.0 == other.0);
            }
        }
        r
    }
}

impl vstd::std_specs::cmp::PartialEqSpecImpl for Signature64 {
    open spec fn obeys_eq_spec() -> bool {
        true
    }

    open spec fn eq_spec(&self, other: &Signature64) -> bool {
        self.0 == other.0
    }
}

impl Default for Signature64 {
    fn default() -> (r: Self)
        ensures
            r.0@ == Seq::new(64, |i: int| 0u8),
    {
        let z = [0u8; 64];
        proof {
            assert(z@ =~= Seq::new(64, |i: int| 0u8));
        }
        Signature64(z)
    }
}

impl Signature64 {
    /// Wrap 64 signature bytes.
    pub fn from_bytes(bytes: [u8; 64]) -> (r: Self)
        ensures
            r.0 == bytes,
    {
        Signature64(bytes)
    }

    /// The underlying bytes.
    pub fn as_bytes(&self) -> (r: &[u8; 64])
        ensures
            r == self.0,
    {
        &self.0
    }
}

/// Validator identity: the 32-byte Ed25519 public key.
#[derive(Clone, Copy, Debug, Eq, Hash)]
pub struct ValidatorId(pub [u8; 32]);

impl PartialEq for ValidatorId {
    fn eq(&self, other: &ValidatorId) -> (r: bool) {
        let r = bytes32_eq(&self.0, &other.0);
        proof {
            if self.0@ == other.0@ {
                assert(self.0 == other.0);
            }
        }
        r
    }
}

impl vstd::std_specs::cmp::PartialEqSpecImpl for ValidatorId {
    open spec fn obeys_eq_spec() -> bool {
        true
    }

    open spec fn eq_spec(&self, other: &ValidatorId) -> bool {
        self.0 == other.0
    }
}

/// The lower-case hex character for a value below 16.
pub open spec fn hex_char(n: u8) -> char {
    if n == 0 {
        '0'
    } else if n == 1 {
        '1'
    } else if n == 2 {
        '2'
    } else if n == 3 {
        '3'
    } else if n == 4 {
        '4'
    } else if n == 5 {
        '5'
    } else if n == 6 {
        '6'
    } else if n == 7 {
        '7'
    } else if n == 8 {
        '8'
    } else if n == 9 {
        '9'
    } else if n == 10 {
        'a'
    } else if n == 11 {
        'b'
    } else if n == 12 {
        'c'
    } else if n == 13 {
        'd'
    } else if n == 14 {
        'e'
    } else {
        'f'
    }
}

/// Lower-case hex of a byte sequence, two characters per byte.
pub open spec fn hex_of(bytes: Seq<u8>) -> Seq<char>
    decreases bytes.len(),
{
    if bytes.len() == 0 {
        Seq::empty()
    } else {
        hex_of(bytes.drop_last()) + seq![
            hex_char(bytes.last() / 16),
            hex_char(bytes.last() % 16),
        ]
    }
}

fn nibble_str(n: u8) -> (r: &'static str)
    requires
        n < 16,
    ensures
        r@ == seq![hex_char(n)],
{
    let s = if n == 0 {
        "0"
    } else if n == 1 {
        "1"
    } else if n == 2 {
        "2"
    } else if n == 3 {
        "3"
    } else if n == 4 {
        "4"
    } else if n == 5 {
        "5"
    } else if n == 6 {
        "6"
    } else if n == 7 {
        "7"
    } else if n == 8 {
        "8"
    } else if n == 9 {
        "9"
    } else if n == 10 {
        "a"
    } else if n == 11 {
        "b"
    } else if n == 12 {
        "c"
    } else if n == 13 {
        "d"
    } else if n == 14 {
        "e"
    } else {
        "f"
    };
    proof {
        reveal_strlit("0");
        reveal_strlit("1");
        reveal_strlit("2");
        reveal_strlit("3");
        reveal_strlit("4");
        reveal_strlit("5");
        reveal_strlit("6");
        reveal_strlit("7");
        reveal_strlit("8");
        reveal_strlit("9");
        reveal_strlit("a");
        reveal_strlit("b");
        reveal_strlit("c");
        reveal_strlit("d");
        reveal_strlit("e");
        reveal_strlit("f");
        assert(s@ =~= seq![hex_char(n)]);
    }
    s
}

/// The two lower-case hex characters of one byte, as a string.
pub fn hex_byte(b: u8) -> (r: String)
    ensures
        r@ == seq![hex_char(b / 16), hex_char(b % 16)],
{
    let mut s = String::new();
    s.append(nibble_str(b / 16));
    s.append(nibble_str(b % 16));
    proof {
        assert(s@ =~= seq![hex_char(b / 16), hex_char(b % 16)]);
    }
    s
}

impl ValidatorId {
    /// Create a validator ID from public key bytes.
    pub fn from_bytes(bytes: [u8; 32]) -> (r: Self)
        ensures
            r.0 == bytes,
    {
        ValidatorId(bytes)
    }

    /// The underlying bytes.
    pub fn as_bytes(&self) -> (r: &[u8; 32])
        ensures
            r == self.0,
    {
        &self.0
    }

    /// Short lower-case hex form (first 8 bytes) for reporting.
    pub fn to_hex(&self) -> (r: String)
        ensures
            r@ == hex_of(self.0@.take(8)),
    {
        let mut s = String::new();
        let mut i: usize = 0;
        while i < 8
            invariant
                0 <= i <= 8,
                s@ == hex_of(self.0@.take(i as int)),
            decreases 8 - i,
        {
            let b = self.0[i];
            s.append(nibble_str(b / 16));
            s.append(nibble_str(b % 16));
            proof {
                let t = self.0@.take(i + 1);
                assert(t.drop_last() =~= self.0@.take(i as int));
                assert(t.last() == self.0@[i as int]);
                assert(s@ =~= hex_of(self.0@.take(i + 1)));
            }
            i += 1;
        }
        s
    }
}

/// A validator with its public key and voting weight.
#[derive(Clone, Copy, Debug)]
pub struct Validator {
    /// Unique identifier (derived from the public key).
    pub id: ValidatorId,
    /// Ed25519 public key bytes.
    pub pubkey: [u8; 32],
    /// Voting weight.
    pub weight: u64,
}

impl Validator {
    /// Create a new validator with weight 1.
    pub fn new(pubkey: [u8; 32]) -> (r: Self)
        ensures
            r.id.0 == pubkey,
            r.pubkey == pubkey,
            r.weight == 1,
    {
        Validator { id: ValidatorId(pubkey), pubkey, weight: 1 }
    }
}

/// The total weight of a sequence of validators.
pub open spec fn weight_sum(vs: Seq<Validator>) -> int
    decreases vs.len(),
{
    if vs.len() == 0 {
        0
    } else {
        weight_sum(vs.drop_last()) + vs.last().weight
    }
}

/// Whether a sequence of validators holds one with the given id.
pub open spec fn has_validator(vs: Seq<Validator>, id: ValidatorId) -> bool {
    exists|i: int| 0 <= i < vs.len() && vs[i].id == id
}

/// The quorum threshold for total weight `w`: a strict supermajority.
pub open spec fn spec_quorum_threshold(w: int) -> int {
    2 * w / 3 + 1
}

/// The maximum faulty weight tolerated for total weight `w`.
pub open spec fn spec_max_faulty(w: int) -> int {
    (w - 1) / 3
}

pub proof fn lemma_weight_sum_nonneg(vs: Seq<Validator>)
    ensures
        weight_sum(vs) >= 0,
    decreases vs.len(),
{
    if vs.len() > 0 {
        lemma_weight_sum_nonneg(vs.drop_last());
    }
}

pub proof fn lemma_weight_sum_push(vs: Seq<Validator>, v: Validator)
    ensures
        weight_sum(vs.push(v)) == weight_sum(vs) + v.weight,
{
    assert(vs.push(v).drop_last() =~= vs);
    assert(vs.push(v).last() == v);
}

/// The set of active validators. The order of the sequence is the leader
/// rotation order; the cached total weight always equals the sum of the
/// validators' weights.
#[derive(Clone, Debug)]
pub struct ValidatorSet {
    /// Ordered list of validators (order matters for leader selection).
    pub validators: Vec<Validator>,
    /// Cached total voting weight.
    pub total_weight: u64,
}

impl ValidatorSet {
    /// The validators, in rotation order.
    pub open spec fn spec_validators(&self) -> Seq<Validator> {
        self.validators@
    }

    /// Well-formedness: the cached total weight is the sum of the weights,
    /// every weight is at least 1, and identities are pairwise distinct.
    pub open spec fn wf(&self) -> bool {
        &&& self.total_weight as int == weight_sum(self.validators@)
        &&& forall|i: int|
            0 <= i < self.validators@.len() ==> (#[trigger] self.validators@[i]).weight >= 1
        &&& forall|i: int, j: int|
            0 <= i < j < self.validators@.len() ==> self.validators@[i].id
                != self.validators@[j].id
    }

    /// The rotation index of the leader for a round.
    pub open spec fn spec_leader_index(&self, round: int) -> int {
        round % (self.validators@.len() as int)
    }

    /// Create a new validator set from a list of distinct public keys,
    /// each with weight 1.
    pub fn new(pubkeys: Vec<[u8; 32]>) -> (r: Self)
        requires
            forall|i: int, j: int| 0 <= i < j < pubkeys@.len() ==> pubkeys@[i] != pubkeys@[j],
        ensures
            r.wf(),
            r.spec_validators().len() == pubkeys@.len(),
            forall|i: int|
                0 <= i < pubkeys@.len() ==> (#[trigger] r.spec_validators()[i]) == (Validator {
                    id: ValidatorId(pubkeys@[i]),
                    pubkey: pubkeys@[i],
                    weight: 1,
                }),
            r.total_weight as int == pubkeys@.len(),
    {
        let n = pubkeys.len();
        let mut validators: Vec<Validator> = Vec::new();
        let mut total: u64 = 0;
        let mut i: usize = 0;
        while i < n
            invariant
                0 <= i <= n,
                n == pubkeys@.len(),
                forall|a: int, b: int| 0 <= a < b < pubkeys@.len() ==> pubkeys@[a] != pubkeys@[b],
                validators@.len() == i,
                total as int == i,
                weight_sum(validators@) == i,
                forall|k: int|
                    0 <= k < i ==> (#[trigger] validators@[k]) == (Validator {
                        id: ValidatorId(pubkeys@[k]),
                        pubkey: pubkeys@[k],
                        weight: 1,
                    }),
            decreases n - i,
        {
            let v = Validator::new(pubkeys[i]);
            proof {
                lemma_weight_sum_push(validators@, v);
            }
            validators.push(v);
            total = total + 1;
            i += 1;
        }
        ValidatorSet { validators, total_weight: total }
    }

    /// Rebuild the cached total weight, as after deserialization.
    pub fn rebuild_index(&mut self)
        requires
            weight_sum(old(self).spec_validators()) <= u64::MAX,
        ensures
            final(self).spec_validators() == old(self).spec_validators(),
            final(self).total_weight as int == weight_sum(final(self).spec_validators()),
    {
        let n = self.validators.len();
        let mut total: u64 = 0;
        let mut i: usize = 0;
        proof {
            assert(self.validators@.take(0) =~= Seq::<Validator>::empty());
            lemma_weight_sum_nonneg(self.validators@);
        }
        while i < n
            invariant
                0 <= i <= n,
                n == self.validators@.len(),
                weight_sum(self.validators@) <= u64::MAX,
                total as int == weight_sum(self.validators@.take(i as int)),
                weight_sum(self.validators@.take(i as int)) <= weight_sum(self.validators@),
            decreases n - i,
        {
            proof {
                lemma_weight_sum_take_step(self.validators@, i as int);
                lemma_weight_sum_take_bound(self.validators@, i + 1);
                lemma_weight_sum_nonneg(self.validators@.take(i as int));
            }
            total = total + self.validators[i].weight;
            i += 1;
        }
        proof {
            assert(self.validators@.take(n as int) =~= self.validators@);
        }
        self.total_weight = total;
    }

    /// Number of validators.
    pub fn len(&self) -> (r: usize)
        ensures
            r == self.spec_validators().len(),
    {
        self.validators.len()
    }

    /// Whether the set is empty.
    pub fn is_empty(&self) -> (r: bool)
        ensures
            r <==> self.spec_validators().len() == 0,
    {
        self.validators.is_empty()
    }

    /// The validators in rotation order.
    pub fn validators(&self) -> (r: &Vec<Validator>)
        ensures
            r@ == self.spec_validators(),
    {
        &self.validators
    }

    /// Get a validator by identity.
    pub fn get(&self, id: &ValidatorId) -> (r: Option<&Validator>)
        ensures
            r is Some <==> has_validator(self.spec_validators(), *id),
            r matches Some(v) ==> v.id == *id && self.spec_validators().contains(*v),
    {
        let n = self.validators.len();
        let mut i: usize = 0;
        while i < n
            invariant
                0 <= i <= n,
                n == self.validators@.len(),
                forall|k: int| 0 <= k < i ==> self.validators@[k].id != *id,
            decreases n - i,
        {
            if bytes32_eq(&self.validators[i].id.0, &id.0) {
                proof {
                    assert(self.validators@[i as int].id.0@ == id.0@);
                    assert(self.validators@[i as int].id.0 == id.0);
                    assert(self.validators@[i as int].id == *id);
                    assert(has_validator(self.spec_validators(), *id));
                    assert(self.spec_validators().contains(self.validators@[i as int]));
                }
                return Some(&self.validators[i]);
            }
            i += 1;
        }
        None
    }

    /// Whether a validator identity is in the set.
    pub fn contains(&self, id: &ValidatorId) -> (r: bool)
        ensures
            r <==> has_validator(self.spec_validators(), *id),
    {
        self.get(id).is_some()
    }

    /// The leader for a given round: deterministic rotation.
    pub fn leader_for_round(&self, round: u64) -> (r: &Validator)
        requires
            self.spec_validators().len() > 0,
        ensures
            *r == self.spec_validators()[self.spec_leader_index(round as int)],
    {
        let n = self.validators.len();
        let index = (round % (n as u64)) as usize;
        &self.validators[index]
    }

    /// The quorum threshold: strictly more than two thirds of the total
    /// weight.
    pub fn quorum_threshold(&self) -> (r: u64)
        ensures
            r as int == spec_quorum_threshold(self.total_weight as int),
    {
        let t = self.total_weight as u128;
        let q = (t * 2) / 3 + 1;
        proof {
            assert(q as int == spec_quorum_threshold(self.total_weight as int) && q <= u64::MAX)
                by (nonlinear_arith)
                requires
                    t == self.total_weight as u128,
                    q == (t * 2) / 3 + 1,
                    t <= u64::MAX,
            ;
        }
        q as u64
    }

    /// The maximum faulty weight tolerated.
    pub fn max_faulty(&self) -> (r: u64)
        requires
            self.spec_total_weight() >= 1,
        ensures
            r as int == spec_max_faulty(self.total_weight as int),
    {
        (self.total_weight - 1) / 3
    }

    /// The cached total voting weight.
    pub open spec fn spec_total_weight(&self) -> u64 {
        self.total_weight
    }

    /// Get total voting weight.
    pub fn total_weight(&self) -> (r: u64)
        ensures
            r == self.spec_total_weight(),
    {
        self.total_weight
    }
}

pub proof fn lemma_weight_sum_take_step(vs: Seq<Validator>, i: int)
    requires
        0 <= i < vs.len(),
    ensures
        weight_sum(vs.take(i + 1)) == weight_sum(vs.take(i)) + vs[i].weight,
{
    assert(vs.take(i + 1).drop_last() =~= vs.take(i));
    assert(vs.take(i + 1).last() == vs[i]);
}

pub proof fn lemma_weight_sum_take_bound(vs: Seq<Validator>, i: int)
    requires
        0 <= i <= vs.len(),
    ensures
        weight_sum(vs.take(i)) <= weight_sum(vs),
    decreases vs.len() - i,
{
    if i == vs.len() {
        assert(vs.take(i) =~= vs);
    } else {
        lemma_weight_sum_take_step(vs, i);
        lemma_weight_sum_take_bound(vs, i + 1);
        assert(vs[i].weight >= 0);
    }
}

/// Law: for every total weight `w ≥ 1`, the quorum threshold is a strict
/// two-thirds supermajority, two quorums always overlap (twice the quorum
/// weight exceeds the total), and quorum weight plus the tolerated faulty
/// weight never exceeds the total weight.
pub proof fn lemma_quorum_bounds(w: int)
    requires
        w >= 1,
    ensures
        3 * spec_quorum_threshold(w) > 2 * w,
        2 * spec_quorum_threshold(w) > w,
        spec_quorum_threshold(w) + spec_max_faulty(w) <= w,
{
    assert(3 * (2 * w / 3 + 1) > 2 * w && 2 * (2 * w / 3 + 1) > w && (2 * w / 3 + 1) + (w - 1) / 3
        <= w) by (nonlinear_arith)
        requires
            w >= 1,
    ;
}

/// Law: leader rotation is periodic with period `n`, the number of
/// validators: the leader index for round `r + n` equals that for `r`.
pub proof fn lemma_leader_rotation_periodic(vs: ValidatorSet, round: int)
    requires
        vs.spec_validators().len() >= 1,
        round >= 0,
    ensures
        vs.spec_leader_index(round + vs.spec_validators().len()) == vs.spec_leader_index(round),
{
    let n = vs.spec_validators().len() as int;
    vstd::arithmetic::div_mod::lemma_mod_add_multiples_vanish(round, n);
}

} // verus!
