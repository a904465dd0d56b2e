//! The pure logic of the store's directory layout: file names built from
//! zero-padded decimal heights, their parsing, and the latest-height scan.
//! The file system calls that read and write those files live outside the
//! library and hand names in as bytes.

use vstd::prelude::*;

verus! {

/// The ASCII digit for the low decimal digit of `n`.
pub open spec fn digit_char(n: u64) -> u8 {
    (0x30 + n % 10) as u8
}

/// The minimal decimal digits of `n`, most significant first.
pub open spec fn spec_decimal(n: u64) -> Seq<u8>
    decreases n,
{
    if n < 10 {
        seq![digit_char(n)]
    } else {
        spec_decimal((n / 10) as u64) + seq![digit_char(n)]
    }
}

/// The decimal digits of `n`, zero-padded on the left to at least `width`.
pub open spec fn spec_decimal_padded(n: u64, width: int) -> Seq<u8> {
    if spec_decimal(n).len() >= width {
        spec_decimal(n)
    } else {
        Seq::new((width - spec_decimal(n).len()) as nat, |i: int| 0x30u8) + spec_decimal(n)
    }
}

/// Whether every byte is an ASCII digit.
pub open spec fn all_digits(s: Seq<u8>) -> bool {
    forall|i: int| 0 <= i < s.len() ==> 0x30 <= #[trigger] s[i] <= 0x39
}

/// The numeric value of a digit string, most significant first.
pub open spec fn decimal_value(s: Seq<u8>) -> int
    decreases s.len(),
{
    if s.len() == 0 {
        0
    } else {
        decimal_value(s.drop_last()) * 10 + (s.last() - 0x30)
    }
}

/// The digits of `rev`, reversed.
pub open spec fn rev_digits(rev: Seq<u8>) -> Seq<u8> {
    Seq::new(rev.len(), |i: int| rev[rev.len() - 1 - i])
}

proof fn lemma_rev_digits_push(rev: Seq<u8>, d: u8)
    ensures
        rev_digits(rev.push(d)) == seq![d] + rev_digits(rev),
{
    assert(rev_digits(rev.push(d)) =~= seq![d] + rev_digits(rev));
}

/// Render `n` as minimal decimal digits.
pub fn u64_to_decimal(n: u64) -> (r: Vec<u8>)
    ensures
        r@ == spec_decimal(n),
        all_digits(r@),
        r@.len() >= 1,
{
    let mut rev: Vec<u8> = Vec::new();
    let mut m = n;
    while m >= 10
        invariant
            (rev@.len() == 0 && m == n) || spec_decimal(n) == spec_decimal(m) + rev_digits(rev@),
        decreases m,
    {
        let d = (0x30 + (m % 10)) as u8;
        proof {
            lemma_rev_digits_push(rev@, d);
            assert(d == digit_char(m));
            assert(spec_decimal(m) == spec_decimal((m / 10) as u64) + seq![digit_char(m)]);
            if rev@.len() == 0 {
                assert(rev_digits(rev@.push(d)) =~= seq![d]);
                assert(spec_decimal((m / 10) as u64) + seq![digit_char(m)] =~= spec_decimal(
                    (m / 10) as u64,
                ) + rev_digits(rev@.push(d)));
            } else {
                assert(spec_decimal((m / 10) as u64) + (seq![digit_char(m)] + rev_digits(rev@))
                    =~= (spec_decimal((m / 10) as u64) + seq![digit_char(m)]) + rev_digits(rev@));
            }
        }
        rev.push(d);
        m = m / 10;
    }
    let d = (0x30 + (m % 10)) as u8;
    proof {
        lemma_rev_digits_push(rev@, d);
        assert(d == digit_char(m));
        assert(spec_decimal(m) =~= seq![digit_char(m)]);
        if rev@.len() == 0 {
            assert(rev_digits(rev@.push(d)) =~= seq![d]);
        } else {
            assert(seq![digit_char(m)] + rev_digits(rev@) =~= spec_decimal(m) + rev_digits(rev@));
        }
    }
    rev.push(d);
    proof {
        assert(rev_digits(rev@) == spec_decimal(n));
    }
    let count = rev.len();
    let mut out: Vec<u8> = Vec::new();
    let mut i = count;
    while i > 0
        invariant
            i <= count,
            count == rev@.len(),
            rev_digits(rev@) == spec_decimal(n),
            out@ == rev_digits(rev@).take(count - i),
        decreases i,
    {
        i -= 1;
        out.push(rev[i]);
        proof {
            assert(rev_digits(rev@)[count - 1 - i] == rev@[i as int]);
            assert(out@ =~= rev_digits(rev@).take(count - i));
        }
    }
    proof {
        assert(rev_digits(rev@).take(count as int) =~= rev_digits(rev@));
        assert forall|k: int| 0 <= k < out@.len() implies 0x30 <= #[trigger] out@[k] <= 0x39 by {
            lemma_decimal_all_digits(n);
        }
    }
    out
}

proof fn lemma_decimal_all_digits(n: u64)
    ensures
        all_digits(spec_decimal(n)),
        spec_decimal(n).len() >= 1,
    decreases n,
{
    if n >= 10 {
        lemma_decimal_all_digits((n / 10) as u64);
    }
}

/// Render `n` as decimal digits zero-padded to at least `width`.
pub fn u64_to_decimal_padded(n: u64, width: usize) -> (r: Vec<u8>)
    ensures
        r@ == spec_decimal_padded(n, width as int),
        all_digits(r@),
{
    let digits = u64_to_decimal(n);
    proof {
        lemma_decimal_all_digits(n);
    }
    if digits.len() >= width {
        return digits;
    }
    let pad = width - digits.len();
    let mut out: Vec<u8> = Vec::new();
    let mut i: usize = 0;
    while i < pad
        invariant
            0 <= i <= pad,
            out@.len() == i,
            forall|k: int| 0 <= k < i ==> out@[k] == 0x30u8,
        decreases pad - i,
    {
        out.push(0x30);
        i += 1;
    }
    crate::bytes::push_slice(&mut out, digits.as_slice());
    proof {
        assert(out@ =~= spec_decimal_padded(n, width as int));
    }
    out
}

/// The value of a digit prefix never exceeds the value of the whole digit
/// string.
proof fn lemma_decimal_value_monotone(s: Seq<u8>, i: int)
    requires
        0 <= i <= s.len(),
        all_digits(s),
    ensures
        0 <= decimal_value(s.take(i)) <= decimal_value(s),
    decreases s.len(),
{
    lemma_decimal_value_nonneg(s.take(i));
    if i < s.len() {
        assert(s.drop_last().take(i) =~= s.take(i));
        lemma_decimal_value_monotone(s.drop_last(), i);
        lemma_decimal_value_nonneg(s.drop_last());
        assert(decimal_value(s) == decimal_value(s.drop_last()) * 10 + (s.last() - 0x30));
        assert(decimal_value(s.drop_last()) * 10 >= decimal_value(s.drop_last())) by (nonlinear_arith)
            requires
                decimal_value(s.drop_last()) >= 0,
        ;
        assert(0x30 <= s[s.len() - 1] <= 0x39);
    } else {
        assert(s.take(i) =~= s);
    }
}

proof fn lemma_decimal_value_nonneg(s: Seq<u8>)
    ensures
        (all_digits(s) ==> decimal_value(s) >= 0),
    decreases s.len(),
{
    if s.len() > 0 {
        assert(s.drop_last() =~= s.take(s.len() - 1));
        lemma_decimal_value_nonneg(s.drop_last());
        if all_digits(s) {
            assert(all_digits(s.drop_last()));
            assert(decimal_value(s.drop_last()) * 10 >= 0) by (nonlinear_arith)
                requires
                    decimal_value(s.drop_last()) >= 0,
            ;
            assert(0x30 <= s[s.len() - 1] <= 0x39);
        }
    }
}

/// Parse a decimal digit string into a u64. Succeeds exactly on non-empty
/// all-digit strings whose value fits.
pub fn parse_u64_decimal(s: &[u8]) -> (r: Option<u64>)
    ensures
        r matches Some(v) ==> s@.len() > 0 && all_digits(s@) && v == decimal_value(s@),
        r is None <==> s@.len() == 0 || !all_digits(s@) || decimal_value(s@) > u64::MAX,
{
    let n = s.len();
    if n == 0 {
        return None;
    }
    let mut acc: u64 = 0;
    let mut i: usize = 0;
    proof {
        assert(s@.take(0) =~= Seq::<u8>::empty());
    }
    while i < n
        invariant
            0 <= i <= n,
            n == s@.len(),
            all_digits(s@.take(i as int)),
            acc == decimal_value(s@.take(i as int)),
        decreases n - i,
    {
        let b = s[i];
        proof {
            assert(s@.take(i + 1).drop_last() =~= s@.take(i as int));
            assert(s@.take(i + 1).last() == s@[i as int]);
        }
        if b < 0x30 || b > 0x39 {
            proof {
                assert(!all_digits(s@));
            }
            return None;
        }
        let d = (b - 0x30) as u64;
        if acc > (u64::MAX - d) / 10 {
            proof {
                assert(acc * 10 + d > u64::MAX) by (nonlinear_arith)
                    requires
                        acc > (u64::MAX - d) / 10,
                        0 <= d <= 9,
                ;
                assert(decimal_value(s@.take(i + 1)) > u64::MAX);
                if all_digits(s@) && decimal_value(s@) <= u64::MAX {
                    lemma_decimal_value_monotone(s@, i + 1);
                }
            }
            return None;
        }
        proof {
            assert(acc * 10 + d <= u64::MAX) by (nonlinear_arith)
                requires
                    acc <= (u64::MAX - d) / 10,
                    0 <= d <= 9,
            ;
        }
        acc = acc * 10 + d;
        i += 1;
    }
    proof {
        assert(s@.take(n as int) =~= s@);
    }
    Some(acc)
}

/// The ".block" suffix of block file names.
pub open spec fn block_suffix() -> Seq<u8> {
    seq![0x2eu8, 0x62u8, 0x6cu8, 0x6fu8, 0x63u8, 0x6bu8]
}

/// The name of the file holding the block at a height: the height as
/// decimal digits zero-padded to six, then ".block".
pub open spec fn spec_block_file_name(height: u64) -> Seq<u8> {
    spec_decimal_padded(height, 6) + block_suffix()
}

/// Build a block file name.
pub fn block_file_name(height: u64) -> (r: Vec<u8>)
    ensures
        r@ == spec_block_file_name(height),
{
    let mut out = u64_to_decimal_padded(height, 6);
    out.push(0x2e);
    out.push(0x62);
    out.push(0x6c);
    out.push(0x6f);
    out.push(0x63);
    out.push(0x6b);
    proof {
        assert(out@ =~= spec_block_file_name(height));
    }
    out
}

/// The height named by a block file, if the name is well-formed: digits
/// followed by ".block", with a value that fits a u64.
pub open spec fn block_name_height(name: Seq<u8>) -> Option<u64> {
    if name.len() >= 7 && name.subrange(name.len() - 6, name.len() as int) == block_suffix()
        && all_digits(name.take(name.len() - 6)) && decimal_value(name.take(name.len() - 6))
        <= u64::MAX {
        Some(decimal_value(name.take(name.len() - 6)) as u64)
    } else {
        None
    }
}

/// Parse a block file name into its height.
pub fn parse_block_file_name(name: &[u8]) -> (r: Option<u64>)
    ensures
        r == block_name_height(name@),
{
    let n = name.len();
    if n < 7 {
        return None;
    }
    let suffix = crate::bytes::read_vec(name, n - 6, n);
    let expected: [u8; 6] = [0x2e, 0x62, 0x6c, 0x6f, 0x63, 0x6b];
    let mut i: usize = 0;
    while i < 6
        invariant
            0 <= i <= 6,
            suffix@.len() == 6,
            expected@ == block_suffix(),
            suffix@ == name@.subrange(name@.len() - 6, name@.len() as int),
            forall|k: int| 0 <= k < i ==> suffix@[k] == block_suffix()[k],
        decreases 6 - i,
    {
        if suffix[i] != expected[i] {
            proof {
                assert(suffix@[i as int] != block_suffix()[i as int]);
                assert(name@.subrange(name@.len() - 6, name@.len() as int) != block_suffix());
            }
            return None;
        }
        i += 1;
    }
    proof {
        assert(suffix@ =~= block_suffix());
    }
    let digits = crate::bytes::read_vec(name, 0, n - 6);
    proof {
        assert(digits@ =~= name@.take(name@.len() - 6));
    }
    parse_u64_decimal(digits.as_slice())
}

/// The greatest height named by any block file in the list, as the store's
/// directory scan computes it.
pub fn latest_block_height_in(names: &Vec<Vec<u8>>) -> (r: Option<u64>)
    ensures
        r is None <==> (forall|k: int|
            0 <= k < names@.len() ==> block_name_height((#[trigger] names@[k])@) is None),
        r matches Some(m) ==> (exists|k: int|
            0 <= k < names@.len() && block_name_height((#[trigger] names@[k])@) == Some(m)) && (
        forall|k: int|
            0 <= k < names@.len() ==> (block_name_height((#[trigger] names@[k])@) matches Some(h)
                ==> h <= m)),
{
    let n = names.len();
    let mut best: Option<u64> = None;
    let mut i: usize = 0;
    while i < n
        invariant
            0 <= i <= n,
            n == names@.len(),
            best is None <==> (forall|k: int|
                0 <= k < i ==> block_name_height((#[trigger] names@[k])@) is None),
            best matches Some(m) ==> (exists|k: int|
                0 <= k < i && block_name_height((#[trigger] names@[k])@) == Some(m)) && (forall|k: int|
                0 <= k < i ==> (block_name_height((#[trigger] names@[k])@) matches Some(h) ==> h
                    <= m)),
        decreases n - i,
    {
        match parse_block_file_name(names[i].as_slice()) {
            Some(h) => {
                let replace = match &best {
                    Some(m) => h > *m,
                    None => true,
                };
                if replace {
                    best = Some(h);
                }
            },
            None => {},
        }
        i += 1;
    }
    best
}

/// The "finality_" prefix of finality certificate file names.
pub open spec fn finality_prefix() -> Seq<u8> {
    seq![0x66u8, 0x69u8, 0x6eu8, 0x61u8, 0x6cu8, 0x69u8, 0x74u8, 0x79u8, 0x5fu8]
}

/// The ".json" suffix of finality certificate file names.
pub open spec fn json_suffix() -> Seq<u8> {
    seq![0x2eu8, 0x6au8, 0x73u8, 0x6fu8, 0x6eu8]
}

/// The name of the file holding the finality certificate at a height:
/// "finality_", the height zero-padded to eight digits, then ".json".
pub open spec fn spec_finality_file_name(height: u64) -> Seq<u8> {
    finality_prefix() + spec_decimal_padded(height, 8) + json_suffix()
}

/// Build a finality certificate file name.
pub fn finality_file_name(height: u64) -> (r: Vec<u8>)
    ensures
        r@ == spec_finality_file_name(height),
{
    let mut out: Vec<u8> = Vec::new();
    out.push(0x66);
    out.push(0x69);
    out.push(0x6e);
    out.push(0x61);
    out.push(0x6c);
    out.push(0x69);
    out.push(0x74);
    out.push(0x79);
    out.push(0x5f);
    let mut digits = u64_to_decimal_padded(height, 8);
    out.append(&mut digits);
    out.push(0x2e);
    out.push(0x6a);
    out.push(0x73);
    out.push(0x6f);
    out.push(0x6e);
    proof {
        assert(out@ =~= spec_finality_file_name(height));
    }
    out
}

/// The height named by a finality certificate file, if well-formed.
pub open spec fn finality_name_height(name: Seq<u8>) -> Option<u64> {
    if name.len() >= 15 && name.take(9) == finality_prefix() && name.subrange(
        name.len() - 5,
        name.len() as int,
    ) == json_suffix() && all_digits(name.subrange(9, name.len() - 5)) && decimal_value(
        name.subrange(9, name.len() - 5),
    ) <= u64::MAX && name.len() - 5 > 9 {
        Some(decimal_value(name.subrange(9, name.len() - 5)) as u64)
    } else {
        None
    }
}

/// Parse a finality certificate file name into its height.
pub fn parse_finality_file_name(name: &[u8]) -> (r: Option<u64>)
    ensures
        r == finality_name_height(name@),
{
    let n = name.len();
    if n < 15 {
        return None;
    }
    let prefix = crate::bytes::read_vec(name, 0, 9);
    let expected_prefix: [u8; 9] = [0x66, 0x69, 0x6e, 0x61, 0x6c, 0x69, 0x74, 0x79, 0x5f];
    let mut i: usize = 0;
    while i < 9
        invariant
            0 <= i <= 9,
            prefix@.len() == 9,
            expected_prefix@ == finality_prefix(),
            prefix@ == name@.take(9),
            forall|k: int| 0 <= k < i ==> prefix@[k] == finality_prefix()[k],
        decreases 9 - i,
    {
        if prefix[i] != expected_prefix[i] {
            proof {
                assert(prefix@[i as int] != finality_prefix()[i as int]);
                assert(name@.take(9) != finality_prefix());
            }
            return None;
        }
        i += 1;
    }
    proof {
        assert(prefix@ =~= finality_prefix());
    }
    let suffix = crate::bytes::read_vec(name, n - 5, n);
    let expected_suffix: [u8; 5] = [0x2e, 0x6a, 0x73, 0x6f, 0x6e];
    let mut j: usize = 0;
    while j < 5
        invariant
            0 <= j <= 5,
            suffix@.len() == 5,
            expected_suffix@ == json_suffix(),
            suffix@ == name@.subrange(name@.len() - 5, name@.len() as int),
            forall|k: int| 0 <= k < j ==> suffix@[k] == json_suffix()[k],
        decreases 5 - j,
    {
        if suffix[j] != expected_suffix[j] {
            proof {
                assert(suffix@[j as int] != json_suffix()[j as int]);
                assert(name@.subrange(name@.len() - 5, name@.len() as int) != json_suffix());
            }
            return None;
        }
        j += 1;
    }
    proof {
        assert(suffix@ =~= json_suffix());
    }
    if n - 5 <= 9 {
        return None;
    }
    let digits = crate::bytes::read_vec(name, 9, n - 5);
    proof {
        assert(digits@ =~= name@.subrange(9, name@.len() - 5));
    }
    parse_u64_decimal(digits.as_slice())
}

/// The greatest height named by any finality certificate file in the list.
pub fn latest_finalized_height_in(names: &Vec<Vec<u8>>) -> (r: Option<u64>)
    ensures
        r is None <==> (forall|k: int|
            0 <= k < names@.len() ==> finality_name_height((#[trigger] names@[k])@) is None),
        r matches Some(m) ==> (exists|k: int|
            0 <= k < names@.len() && finality_name_height((#[trigger] names@[k])@) == Some(m)) && (
        forall|k: int|
            0 <= k < names@.len() ==> (finality_name_height((#[trigger] names@[k])@) matches Some(h)
                ==> h <= m)),
{
    let n = names.len();
    let mut best: Option<u64> = None;
    let mut i: usize = 0;
    while i < n
        invariant
            0 <= i <= n,
            n == names@.len(),
            best is None <==> (forall|k: int|
                0 <= k < i ==> finality_name_height((#[trigger] names@[k])@) is None),
            best matches Some(m) ==> (exists|k: int|
                0 <= k < i && finality_name_height((#[trigger] names@[k])@) == Some(m)) && (forall|k: int|
                0 <= k < i ==> (finality_name_height((#[trigger] names@[k])@) matches Some(h) ==> h
                    <= m)),
        decreases n - i,
    {
        match parse_finality_file_name(names[i].as_slice()) {
            Some(h) => {
                let replace = match &best {
                    Some(m) => h > *m,
                    None => true,
                };
                if replace {
                    best = Some(h);
                }
            },
            None => {},
        }
        i += 1;
    }
    best
}

/// The name of the file holding a state snapshot at a height.
pub open spec fn spec_snapshot_file_name(height: u64) -> Seq<u8> {
    seq![0x73u8, 0x6eu8, 0x61u8, 0x70u8, 0x73u8, 0x68u8, 0x6fu8, 0x74u8, 0x5fu8]
        + spec_decimal_padded(height, 6) + seq![0x2eu8, 0x73u8, 0x74u8, 0x61u8, 0x74u8, 0x65u8]
}

/// Build a snapshot file name: "snapshot_", six-padded digits, ".state".
pub fn snapshot_file_name(height: u64) -> (r: Vec<u8>)
    ensures
        r@ == spec_snapshot_file_name(height),
{
    let mut out: Vec<u8> = Vec::new();
    out.push(0x73);
    out.push(0x6e);
    out.push(0x61);
    out.push(0x70);
    out.push(0x73);
    out.push(0x68);
    out.push(0x6f);
    out.push(0x74);
    out.push(0x5f);
    let mut digits = u64_to_decimal_padded(height, 6);
    out.append(&mut digits);
    out.push(0x2e);
    out.push(0x73);
    out.push(0x74);
    out.push(0x61);
    out.push(0x74);
    out.push(0x65);
    proof {
        assert(out@ =~= spec_snapshot_file_name(height));
    }
    out
}

/// Law: block file names round-trip; the name built for a height parses
/// back to that height.
pub proof fn lemma_block_file_name_round_trip(height: u64)
    ensures
        block_name_height(spec_block_file_name(height)) == Some(height),
{
    let digits = spec_decimal_padded(height, 6);
    let name = spec_block_file_name(height);
    lemma_decimal_all_digits(height);
    lemma_padded_all_digits(height, 6);
    assert(name.take(name.len() - 6) =~= digits);
    assert(name.subrange(name.len() - 6, name.len() as int) =~= block_suffix());
    lemma_padded_value(height, 6);
}

/// Law: finality certificate file names round-trip.
pub proof fn lemma_finality_file_name_round_trip(height: u64)
    ensures
        finality_name_height(spec_finality_file_name(height)) == Some(height),
{
    let digits = spec_decimal_padded(height, 8);
    let name = spec_finality_file_name(height);
    lemma_decimal_all_digits(height);
    lemma_padded_all_digits(height, 8);
    assert(name.take(9) =~= finality_prefix());
    assert(name.subrange(9, name.len() - 5) =~= digits);
    assert(name.subrange(name.len() - 5, name.len() as int) =~= json_suffix());
    lemma_padded_value(height, 8);
}

proof fn lemma_padded_all_digits(n: u64, width: int)
    ensures
        all_digits(spec_decimal_padded(n, width)),
        spec_decimal_padded(n, width).len() >= 1,
{
    lemma_decimal_all_digits(n);
    let d = spec_decimal(n);
    if d.len() < width {
        assert forall|i: int|
            0 <= i < spec_decimal_padded(n, width).len() implies 0x30 <= #[trigger] spec_decimal_padded(
            n,
            width,
        )[i] <= 0x39 by {
            if i >= width - d.len() {
                assert(spec_decimal_padded(n, width)[i] == d[i - (width - d.len())]);
            }
        }
    }
}

/// Padding with leading zeros does not change the decimal value, and the
/// decimal form of `n` has value `n`.
proof fn lemma_padded_value(n: u64, width: int)
    ensures
        decimal_value(spec_decimal_padded(n, width)) == n,
{
    lemma_decimal_value(n);
    let d = spec_decimal(n);
    if d.len() < width {
        lemma_zero_pad_value(Seq::new((width - d.len()) as nat, |i: int| 0x30u8), d);
    }
}

proof fn lemma_decimal_value(n: u64)
    ensures
        decimal_value(spec_decimal(n)) == n,
    decreases n,
{
    if n < 10 {
        assert(spec_decimal(n).drop_last() =~= Seq::<u8>::empty());
        assert(n % 10 == n);
        assert(spec_decimal(n).last() == digit_char(n));
        assert(digit_char(n) == (0x30 + n) as u8);
        assert((0x30 + n) as u8 - 0x30 == n);
        assert(decimal_value(Seq::<u8>::empty()) == 0);
    } else {
        lemma_decimal_value((n / 10) as u64);
        let d = spec_decimal(n);
        assert(d.drop_last() =~= spec_decimal((n / 10) as u64));
        assert(d.last() == digit_char(n));
        assert(n % 10 < 10);
        assert(digit_char(n) == (0x30 + n % 10) as u8);
        assert((0x30 + n % 10) as u8 - 0x30 == n % 10);
        assert((n / 10) * 10 + n % 10 == n) by (nonlinear_arith);
    }
}

proof fn lemma_zero_pad_value(zeros: Seq<u8>, d: Seq<u8>)
    requires
        forall|i: int| 0 <= i < zeros.len() ==> zeros[i] == 0x30u8,
    ensures
        decimal_value(zeros + d) == decimal_value(d),
    decreases d.len(),
{
    if d.len() == 0 {
        lemma_all_zero_value(zeros);
        assert(zeros + d =~= zeros);
    } else {
        assert((zeros + d).drop_last() =~= zeros + d.drop_last());
        lemma_zero_pad_value(zeros, d.drop_last());
        assert((zeros + d).last() == d.last());
    }
}

proof fn lemma_all_zero_value(zeros: Seq<u8>)
    requires
        forall|i: int| 0 <= i < zeros.len() ==> zeros[i] == 0x30u8,
    ensures
        decimal_value(zeros) == 0,
    decreases zeros.len(),
{
    if zeros.len() > 0 {
        lemma_all_zero_value(zeros.drop_last());
    }
}

} // verus!
