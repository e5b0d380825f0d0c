//! Byte-level helpers: comparison and cloning of byte strings, the reserved
//! storage keys, and the variable-length little-endian integer encoding used
//! by the validator-list convention.

use vstd::prelude::*;

verus! {

/// Compare two byte slices for equality.
pub fn bytes_eq(a: &[u8], b: &[u8]) -> (r: bool)
    ensures
        r == (a@ == b@),
{
    if a.len() != b.len() {
        proof {
            assert(a@.len() != b@.len());
        }
        return false;
    }
    let mut i: usize = 0;
    while i < a.len()
        invariant
            i <= a.len(),
            a.len() == b.len(),
            forall|j: int| 0 <= j < i ==> a@[j] == b@[j],
        decreases a.len() - i,
    {
        if a[i] != b[i] {
            return false;
        }
        i += 1;
    }
    proof {
        assert(a@ =~= b@);
    }
    true
}

/// Clone a byte vector.
pub fn clone_bytes(v: &Vec<u8>) -> (r: Vec<u8>)
    ensures
        r@ == v@,
{
    let r = v.clone();
    proof {
        assert forall|i: int| 0 <= i < v@.len() implies r@[i] == v@[i] by {
            assert(vstd::pervasive::cloned::<u8>(v[i], r[i]));
        }
        assert(r@ =~= v@);
    }
    r
}

/// The little-endian, variable-length encoding of `n`: least-significant byte
/// first, exactly as many bytes as there are base-256 digits, so `0` encodes
/// to no bytes at all.
pub open spec fn le_bytes(n: nat) -> Seq<u8>
    decreases n,
{
    if n == 0 {
        Seq::empty()
    } else {
        seq![(n % 256) as u8] + le_bytes(n / 256)
    }
}

/// The integer denoted by a little-endian byte sequence; an empty sequence
/// denotes `0`.
pub open spec fn le_value(s: Seq<u8>) -> nat
    decreases s.len(),
{
    if s.len() == 0 {
        0
    } else {
        (s[0] + 256 * le_value(s.drop_first())) as nat
    }
}

/// Encoding an integer and decoding the bytes yields the integer back.
pub proof fn lemma_le_round_trip(n: nat)
    ensures
        le_value(le_bytes(n)) == n,
    decreases n,
{
    if n == 0 {
    } else {
        lemma_le_round_trip(n / 256);
        let s = le_bytes(n);
        assert(s == seq![(n % 256) as u8] + le_bytes(n / 256));
        assert(s.drop_first() =~= le_bytes(n / 256));
        assert(s[0] == (n % 256) as u8);
        assert(le_value(s) == n % 256 + 256 * (n / 256));
        assert(n % 256 + 256 * (n / 256) == n) by {
            vstd::arithmetic::div_mod::lemma_fundamental_div_mod(n as int, 256);
        }
    }
}

/// Append the little-endian encoding of `value` to `initial`.
pub fn value_vec(value: usize, initial: Vec<u8>) -> (r: Vec<u8>)
    ensures
        r@ == initial@ + le_bytes(value as nat),
{
    let ghost init = initial@;
    let ghost total = value as nat;
    let mut acc = initial;
    let mut value = value;
    while value > 0
        invariant
            acc@ + le_bytes(value as nat) == init + le_bytes(total),
        decreases value,
    {
        let ghost before = acc@;
        let ghost v = value as nat;
        acc.push((value % 256) as u8);
        value = value / 256;
        proof {
            assert(le_bytes(v) == seq![(v % 256) as u8] + le_bytes(v / 256));
            assert(acc@ + le_bytes(value as nat) =~= before + le_bytes(v));
        }
    }
    proof {
        assert(le_bytes(0) =~= Seq::<u8>::empty());
        assert(acc@ + le_bytes(0) =~= acc@);
    }
    acc
}

/// `le_value`, capped at the machine word: what `decode_value` returns.
pub open spec fn le_value_capped(s: Seq<u8>) -> nat {
    if le_value(s) <= usize::MAX {
        le_value(s)
    } else {
        usize::MAX as nat
    }
}

/// Decode a little-endian byte sequence, folding the bytes most-significant
/// first. A value too large for `usize` saturates to `usize::MAX`.
pub fn decode_value(bytes: &[u8]) -> (r: usize)
    ensures
        r == le_value_capped(bytes@),
{
    let mut acc: usize = 0;
    let mut i: usize = bytes.len();
    while i > 0
        invariant
            i <= bytes.len(),
            le_value(bytes@.skip(i as int)) <= usize::MAX ==> acc == le_value(
                bytes@.skip(i as int),
            ),
            le_value(bytes@.skip(i as int)) > usize::MAX ==> acc == usize::MAX,
        decreases i,
    {
        i -= 1;
        let b = bytes[i];
        proof {
            assert(bytes@.skip(i as int).drop_first() =~= bytes@.skip(i + 1));
            assert(bytes@.skip(i as int)[0] == bytes@[i as int]);
            assert(le_value(bytes@.skip(i as int)) == b + 256 * le_value(bytes@.skip(i + 1)));
        }
        acc = match acc.checked_mul(256) {
            Some(shifted) => match shifted.checked_add(b as usize) {
                Some(total) => total,
                None => usize::MAX,
            },
            None => usize::MAX,
        };
    }
    proof {
        assert(bytes@.skip(0) =~= bytes@);
    }
    acc
}

/// The reserved key `\0code` under which the current code blob is stored.
pub open spec fn code_key() -> Seq<u8> {
    seq![0u8, 99u8, 111u8, 100u8, 101u8]
}

/// The reserved key `\0validator_count` holding the encoded validator count.
pub open spec fn validator_count_key() -> Seq<u8> {
    seq![
        0u8,
        118u8,
        97u8,
        108u8,
        105u8,
        100u8,
        97u8,
        116u8,
        111u8,
        114u8,
        95u8,
        99u8,
        111u8,
        117u8,
        110u8,
        116u8,
    ]
}

/// The reserved prefix `\0validator`; the key for validator `i` is this
/// prefix followed by the little-endian encoding of `i`.
pub open spec fn validator_prefix() -> Seq<u8> {
    seq![0u8, 118u8, 97u8, 108u8, 105u8, 100u8, 97u8, 116u8, 111u8, 114u8]
}

/// Build the `\0code` key.
pub fn code_key_vec() -> (r: Vec<u8>)
    ensures
        r@ == code_key(),
{
    let r: Vec<u8> = vec![0u8, 99u8, 111u8, 100u8, 101u8];
    proof {
        assert(r@ =~= code_key());
    }
    r
}

/// Build the `\0validator_count` key.
pub fn validator_count_key_vec() -> (r: Vec<u8>)
    ensures
        r@ == validator_count_key(),
{
    let r: Vec<u8> = vec![
        0u8, 118u8, 97u8, 108u8, 105u8, 100u8, 97u8, 116u8, 111u8, 114u8, 95u8, 99u8, 111u8,
        117u8, 110u8, 116u8,
    ];
    proof {
        assert(r@ =~= validator_count_key());
    }
    r
}

/// Build the `\0validator` prefix.
pub fn validator_prefix_vec() -> (r: Vec<u8>)
    ensures
        r@ == validator_prefix(),
{
    let r: Vec<u8> = vec![0u8, 118u8, 97u8, 108u8, 105u8, 100u8, 97u8, 116u8, 111u8, 114u8];
    proof {
        assert(r@ =~= validator_prefix());
    }
    r
}

} // verus!
