//! Big-endian byte encodings of the integer keys.
//!
//! Every namespace of the store is keyed by big-endian bytes. Big-endian
//! layout makes bytewise lexicographic order agree with numeric order, which
//! is what gives the stream index its prefix-iteration property: all versions
//! of one stream sit together and come out ascending.

use vstd::prelude::*;
use vstd::arithmetic::div_mod::lemma_mod_breakdown;

verus! {

/// 256 raised to the `n`th power: the number of `n`-byte strings.
pub open spec fn pow256(n: nat) -> nat
    decreases n,
{
    if n == 0 {
        1
    } else {
        256 * pow256((n - 1) as nat)
    }
}

/// The `n`-byte big-endian encoding of `x % pow256(n)`.
pub open spec fn be_bytes(x: nat, n: nat) -> Seq<u8>
    decreases n,
{
    if n == 0 {
        Seq::empty()
    } else {
        be_bytes(x / 256, (n - 1) as nat).push((x % 256) as u8)
    }
}

/// The number a big-endian byte string denotes.
pub open spec fn be_to_nat(s: Seq<u8>) -> nat
    decreases s.len(),
{
    if s.len() == 0 {
        0
    } else {
        be_to_nat(s.drop_last()) * 256 + (s.last() as nat)
    }
}

pub proof fn lemma_pow256_pos(n: nat)
    ensures
        pow256(n) >= 1,
    decreases n,
{
    if n > 0 {
        lemma_pow256_pos((n - 1) as nat);
    }
}

pub proof fn lemma_pow256_mono(m: nat, n: nat)
    requires
        m <= n,
    ensures
        pow256(m) <= pow256(n),
    decreases n,
{
    if m < n && n > 0 {
        lemma_pow256_mono(m, (n - 1) as nat);
        lemma_pow256_pos((n - 1) as nat);
    }
}

pub proof fn lemma_be_bytes_len(x: nat, n: nat)
    ensures
        be_bytes(x, n).len() == n,
    decreases n,
{
    if n > 0 {
        lemma_be_bytes_len(x / 256, (n - 1) as nat);
    }
}

/// A byte string denotes a number below `pow256` of its length.
pub proof fn lemma_be_to_nat_bound(s: Seq<u8>)
    ensures
        be_to_nat(s) < pow256(s.len()),
    decreases s.len(),
{
    if s.len() > 0 {
        lemma_be_to_nat_bound(s.drop_last());
        let v = be_to_nat(s.drop_last());
        let p = pow256((s.len() - 1) as nat);
        assert(v * 256 + s.last() < p * 256) by (nonlinear_arith)
            requires
                v < p,
                s.last() < 256,
        ;
    }
}

/// Decoding an encoding recovers the value (mod the width).
pub proof fn lemma_be_roundtrip(x: nat, n: nat)
    ensures
        be_to_nat(be_bytes(x, n)) == x % pow256(n),
    decreases n,
{
    lemma_be_bytes_len(x, n);
    if n == 0 {
        assert(x % 1 == 0) by (nonlinear_arith);
    } else {
        lemma_be_roundtrip(x / 256, (n - 1) as nat);
        lemma_be_bytes_len(x / 256, (n - 1) as nat);
        assert(be_bytes(x, n).drop_last() =~= be_bytes(x / 256, (n - 1) as nat));
        lemma_pow256_pos((n - 1) as nat);
        lemma_mod_breakdown(x as int, 256, pow256((n - 1) as nat) as int);
    }
}

/// Values below the width encode injectively.
pub proof fn lemma_be_bytes_injective(x: nat, y: nat, n: nat)
    requires
        x < pow256(n),
        y < pow256(n),
        be_bytes(x, n) == be_bytes(y, n),
    ensures
        x == y,
{
    lemma_be_roundtrip(x, n);
    lemma_be_roundtrip(y, n);
    assert(x % pow256(n) == x) by (nonlinear_arith)
        requires
            x < pow256(n),
            pow256(n) >= 1,
    ;
    assert(y % pow256(n) == y) by (nonlinear_arith)
        requires
            y < pow256(n),
            pow256(n) >= 1,
    ;
}

/// Front decomposition of `be_to_nat`: the first byte is most significant.
pub proof fn lemma_be_to_nat_first(s: Seq<u8>)
    requires
        s.len() > 0,
    ensures
        be_to_nat(s) == s[0] * pow256((s.len() - 1) as nat) + be_to_nat(s.drop_first()),
    decreases s.len(),
{
    if s.len() == 1 {
        assert(s.drop_last() =~= Seq::<u8>::empty());
        assert(s.drop_first() =~= Seq::<u8>::empty());
        assert(be_to_nat(s) == (s.last() as nat));
        assert(s.last() == s[0]);
        assert(pow256(0) == 1);
        assert(be_to_nat(s) == s[0] * pow256((s.len() - 1) as nat) + be_to_nat(s.drop_first()));
    } else {
        let head = s[0];
        let p = pow256((s.len() - 2) as nat);
        lemma_be_to_nat_first(s.drop_last());
        assert(s.drop_last()[0] == head);
        assert(s.drop_last().drop_first() =~= s.drop_first().drop_last());
        assert(s.drop_first().last() == s.last());
        let x = be_to_nat(s.drop_first().drop_last());
        assert(be_to_nat(s.drop_last()) == head * p + x);
        assert(be_to_nat(s) == (head * p + x) * 256 + (s.last() as nat));
        assert((head * p + x) * 256 == head * (256 * p) + x * 256) by (nonlinear_arith);
        assert(pow256((s.len() - 1) as nat) == 256 * p);
        assert(be_to_nat(s.drop_first()) == x * 256 + (s.last() as nat));
        assert(be_to_nat(s) == head * (256 * p) + (x * 256 + (s.last() as nat)));
        assert(head * (256 * p) == head * pow256((s.len() - 1) as nat)) by (nonlinear_arith)
            requires
                256 * p == pow256((s.len() - 1) as nat),
        ;
    }
}

/// Bytewise lexicographic order, as an ordered byte-keyed index compares keys.
pub open spec fn lex_less(a: Seq<u8>, b: Seq<u8>) -> bool
    decreases a.len(),
{
    if b.len() == 0 {
        false
    } else if a.len() == 0 {
        true
    } else if a[0] < b[0] {
        true
    } else if a[0] == b[0] {
        lex_less(a.drop_first(), b.drop_first())
    } else {
        false
    }
}

/// On equal-length strings, lexicographic order is numeric order.
pub proof fn lemma_lex_less_is_value_less(a: Seq<u8>, b: Seq<u8>)
    requires
        a.len() == b.len(),
    ensures
        lex_less(a, b) <==> be_to_nat(a) < be_to_nat(b),
    decreases a.len(),
{
    if a.len() > 0 {
        let p = pow256((a.len() - 1) as nat);
        lemma_be_to_nat_first(a);
        lemma_be_to_nat_first(b);
        lemma_be_to_nat_bound(a.drop_first());
        lemma_be_to_nat_bound(b.drop_first());
        lemma_lex_less_is_value_less(a.drop_first(), b.drop_first());
        if a[0] < b[0] {
            assert(a[0] * p + be_to_nat(a.drop_first()) < b[0] * p + be_to_nat(b.drop_first()))
                by (nonlinear_arith)
                requires
                    a[0] < b[0],
                    be_to_nat(a.drop_first()) < p,
            ;
        } else if a[0] > b[0] {
            assert(b[0] * p + be_to_nat(b.drop_first()) < a[0] * p + be_to_nat(a.drop_first()))
                by (nonlinear_arith)
                requires
                    b[0] < a[0],
                    be_to_nat(b.drop_first()) < p,
            ;
        }
    }
}

/// Concatenations with equal-length heads compare head first, then tail.
pub proof fn lemma_lex_less_concat(a1: Seq<u8>, b1: Seq<u8>, a2: Seq<u8>, b2: Seq<u8>)
    requires
        a1.len() == a2.len(),
    ensures
        lex_less(a1 + b1, a2 + b2) <==> (lex_less(a1, a2) || (a1 == a2 && lex_less(b1, b2))),
    decreases a1.len(),
{
    if a1.len() == 0 {
        assert(a1 + b1 =~= b1);
        assert(a2 + b2 =~= b2);
        assert(a1 =~= a2);
    } else {
        assert((a1 + b1)[0] == a1[0]);
        assert((a2 + b2)[0] == a2[0]);
        assert((a1 + b1).drop_first() =~= a1.drop_first() + b1);
        assert((a2 + b2).drop_first() =~= a2.drop_first() + b2);
        lemma_lex_less_concat(a1.drop_first(), b1, a2.drop_first(), b2);
        if a1[0] == a2[0] {
            assert(a1 == a2 <==> a1.drop_first() == a2.drop_first()) by {
                if a1.drop_first() == a2.drop_first() {
                    assert forall|i: int| 0 <= i < a1.len() implies a1[i] == a2[i] by {
                        if i > 0 {
                            assert(a1[i] == a1.drop_first()[i - 1]);
                            assert(a2[i] == a2.drop_first()[i - 1]);
                        }
                    }
                    assert(a1 =~= a2);
                }
            }
        }
    }
}

/// Builds the `n`-byte big-endian encoding of `x`.
pub fn u128_to_be(x: u128, n: usize) -> (r: Vec<u8>)
    ensures
        r@ == be_bytes(x as nat, n as nat),
        r@.len() == n,
    decreases n,
{
    if n == 0 {
        Vec::new()
    } else {
        let mut r = u128_to_be(x / 256, n - 1);
        r.push((x % 256) as u8);
        r
    }
}

/// Reads a big-endian byte string of at most 16 bytes as a number.
pub fn be_to_u128(s: &[u8]) -> (r: u128)
    requires
        s@.len() <= 16,
    ensures
        r as nat == be_to_nat(s@),
{
    let mut acc: u128 = 0;
    let mut i: usize = 0;
    while i < s.len()
        invariant
            i <= s@.len(),
            s@.len() <= 16,
            acc as nat == be_to_nat(s@.take(i as int)),
        decreases s@.len() - i,
    {
        proof {
            assert(s@.take(i + 1).drop_last() =~= s@.take(i as int));
            assert(s@.take(i + 1).last() == s@[i as int]);
            lemma_be_to_nat_bound(s@.take(i as int));
            lemma_pow256_mono((i as nat) + 1, 16);
            lemma_pow256_pos(i as nat);
            assert(pow256(16) == 0x100000000000000000000000000000000) by {
                reveal_with_fuel(pow256, 17);
            }
            let v = be_to_nat(s@.take(i as int));
            assert(v * 256 + s@[i as int] < pow256((i as nat) + 1)) by (nonlinear_arith)
                requires
                    v < pow256(i as nat),
                    s@[i as int] < 256,
                    pow256((i as nat) + 1) == 256 * pow256(i as nat),
            ;
        }
        acc = acc * 256 + (s[i] as u128);
        i += 1;
    }
    proof {
        assert(s@.take(s@.len() as int) =~= s@);
    }
    acc
}

/// A stream index key: a stream id paired with a version.
pub struct StreamKey {
    pub stream_id: u128,
    pub version: u32,
}

impl StreamKey {
    /// Pairs a stream id with a version.
    pub fn new(stream_id: u128, version: u32) -> (r: StreamKey)
        ensures
            r.stream_id == stream_id,
            r.version == version,
    {
        StreamKey { stream_id, version }
    }

    /// The 20-byte key layout: stream id (16 bytes) then version (4 bytes),
    /// both big-endian.
    pub open spec fn spec_bytes(self) -> Seq<u8> {
        be_bytes(self.stream_id as nat, 16) + be_bytes(self.version as nat, 4)
    }

    /// Encodes the key as its 20 big-endian bytes.
    pub fn to_be_bytes(&self) -> (r: Vec<u8>)
        ensures
            r@ == self.spec_bytes(),
            r@.len() == 20,
    {
        let mut r = u128_to_be(self.stream_id, 16);
        let mut tail = u128_to_be(self.version as u128, 4);
        r.append(&mut tail);
        r
    }

    /// Numeric order on (stream id, version) pairs.
    pub open spec fn spec_less(self, other: StreamKey) -> bool {
        self.stream_id < other.stream_id || (self.stream_id == other.stream_id
            && self.version < other.version)
    }
}

/// Bytewise order of encoded stream keys is numeric order on the pairs, so a
/// byte-keyed index iterated with a stream id prefix yields versions in
/// ascending order.
pub proof fn lemma_stream_key_order(k1: StreamKey, k2: StreamKey)
    ensures
        lex_less(k1.spec_bytes(), k2.spec_bytes()) <==> k1.spec_less(k2),
{
    let a1 = be_bytes(k1.stream_id as nat, 16);
    let a2 = be_bytes(k2.stream_id as nat, 16);
    let b1 = be_bytes(k1.version as nat, 4);
    let b2 = be_bytes(k2.version as nat, 4);
    lemma_be_bytes_len(k1.stream_id as nat, 16);
    lemma_be_bytes_len(k2.stream_id as nat, 16);
    lemma_be_bytes_len(k1.version as nat, 4);
    lemma_be_bytes_len(k2.version as nat, 4);
    lemma_lex_less_concat(a1, b1, a2, b2);
    lemma_lex_less_is_value_less(a1, a2);
    lemma_lex_less_is_value_less(b1, b2);
    assert(pow256(16) == 0x100000000000000000000000000000000) by {
        reveal_with_fuel(pow256, 17);
    }
    assert(pow256(4) == 0x100000000) by {
        reveal_with_fuel(pow256, 5);
    }
    lemma_be_roundtrip(k1.stream_id as nat, 16);
    lemma_be_roundtrip(k2.stream_id as nat, 16);
    lemma_be_roundtrip(k1.version as nat, 4);
    lemma_be_roundtrip(k2.version as nat, 4);
    assert((k1.stream_id as nat) % pow256(16) == k1.stream_id as nat) by (nonlinear_arith)
        requires
            (k1.stream_id as nat) < pow256(16),
            pow256(16) >= 1,
    ;
    assert((k2.stream_id as nat) % pow256(16) == k2.stream_id as nat) by (nonlinear_arith)
        requires
            (k2.stream_id as nat) < pow256(16),
            pow256(16) >= 1,
    ;
    assert((k1.version as nat) % pow256(4) == k1.version as nat) by (nonlinear_arith)
        requires
            (k1.version as nat) < pow256(4),
            pow256(4) >= 1,
    ;
    assert((k2.version as nat) % pow256(4) == k2.version as nat) by (nonlinear_arith)
        requires
            (k2.version as nat) < pow256(4),
            pow256(4) >= 1,
    ;
    if k1.stream_id == k2.stream_id {
        lemma_be_bytes_injective(k1.stream_id as nat, k2.stream_id as nat, 16);
        assert(a1 == a2);
    } else {
        if a1 == a2 {
            lemma_be_bytes_injective(k1.stream_id as nat, k2.stream_id as nat, 16);
        }
    }
}

} // verus!
