//! Binary key encoding for the persistent cache.
//!
//! Every persisted key is a fixed-width byte string: one leading byte that
//! names the record category, followed by one or two 64-bit identifiers in
//! big-endian order. Big-endian is chosen so that lexicographic ordering of
//! the encoded keys agrees with numeric ordering of the identifiers; that
//! agreement is proved below in [`lemma_single_key_order`].

use vstd::prelude::*;

verus! {

/// The record category that a persisted key belongs to.
#[derive(Copy, Clone, PartialEq, Eq, Structural, Debug)]
pub enum CachePrefix {
    /// Per-guild configuration records, stored as hash fields keyed by the
    /// sub-kind byte of each configuration type.
    GuildConfigs,
    /// Per-guild sets of the user ids of currently online users.
    OnlineStatus,
    /// Cached message records.
    Messages,
}

impl CachePrefix {
    /// The single leading byte that identifies this record category.
    pub open spec fn spec_byte(self) -> u8 {
        match self {
            CachePrefix::GuildConfigs => 1u8,
            CachePrefix::OnlineStatus => 2u8,
            CachePrefix::Messages => 3u8,
        }
    }

    /// Returns the leading byte for this record category.
    pub fn byte(self) -> (r: u8)
        ensures
            r == self.spec_byte(),
    {
        match self {
            CachePrefix::GuildConfigs => 1u8,
            CachePrefix::OnlineStatus => 2u8,
            CachePrefix::Messages => 3u8,
        }
    }
}

/// The big-endian bytes of the low `k` bytes of `n`: the most significant of
/// those bytes first.
pub open spec fn be_bytes(n: u64, k: nat) -> Seq<u8>
    decreases k,
{
    if k == 0 {
        Seq::empty()
    } else {
        be_bytes(n >> 8, (k - 1) as nat).push((n & 0xff) as u8)
    }
}

/// The encoding of a whole 64-bit identifier.
pub open spec fn u64_be(n: u64) -> Seq<u8> {
    be_bytes(n, 8)
}

/// A key made of a category byte and a single identifier: 9 bytes.
pub open spec fn spec_single_key(prefix: CachePrefix, id: u64) -> Seq<u8> {
    seq![prefix.spec_byte()] + u64_be(id)
}

/// A key made of a category byte and an identifier pair: 17 bytes.
pub open spec fn spec_pair_key(prefix: CachePrefix, a: u64, b: u64) -> Seq<u8> {
    seq![prefix.spec_byte()] + u64_be(a) + u64_be(b)
}

proof fn lemma_be_bytes_len(n: u64, k: nat)
    ensures
        be_bytes(n, k).len() == k,
    decreases k,
{
    if k > 0 {
        lemma_be_bytes_len(n >> 8, (k - 1) as nat);
    }
}

/// Writes the low `k` bytes of `n` in big-endian order.
fn push_be_bytes(out: &mut Vec<u8>, n: u64, k: u8)
    ensures
        final(out)@ == old(out)@ + be_bytes(n, k as nat),
    decreases k,
{
    if k > 0 {
        proof {
            lemma_be_bytes_len(n >> 8, (k - 1) as nat);
        }
        push_be_bytes(out, n >> 8, k - 1);
        let low: u64 = n & 0xff;
        assert(low < 256) by (bit_vector)
            requires
                low == n & 0xff,
        ;
        out.push(low as u8);
        assert(out@ =~= old(out)@ + be_bytes(n, k as nat));
    } else {
        assert(out@ =~= old(out)@ + be_bytes(n, 0));
    }
}

/// Encodes a 64-bit identifier as its 8 big-endian bytes.
pub fn encode_u64_be(n: u64) -> (r: Vec<u8>)
    ensures
        r@ == u64_be(n),
        r@.len() == 8,
{
    let mut out: Vec<u8> = Vec::new();
    push_be_bytes(&mut out, n, 8);
    proof {
        lemma_be_bytes_len(n, 8);
    }
    out
}

/// Encodes a single-identifier key: the category byte, then the identifier
/// big-endian. 9 bytes in all.
pub fn encode_single_key(prefix: CachePrefix, id: u64) -> (r: Vec<u8>)
    ensures
        r@ == spec_single_key(prefix, id),
        r@.len() == 9,
{
    let mut out: Vec<u8> = Vec::new();
    out.push(prefix.byte());
    push_be_bytes(&mut out, id, 8);
    proof {
        lemma_be_bytes_len(id, 8);
    }
    assert(out@ =~= spec_single_key(prefix, id));
    out
}

/// Encodes an identifier-pair key: the category byte, then both identifiers
/// big-endian. 17 bytes in all.
pub fn encode_pair_key(prefix: CachePrefix, a: u64, b: u64) -> (r: Vec<u8>)
    ensures
        r@ == spec_pair_key(prefix, a, b),
        r@.len() == 17,
{
    let mut out: Vec<u8> = Vec::new();
    out.push(prefix.byte());
    push_be_bytes(&mut out, a, 8);
    push_be_bytes(&mut out, b, 8);
    proof {
        lemma_be_bytes_len(a, 8);
        lemma_be_bytes_len(b, 8);
    }
    assert(out@ =~= spec_pair_key(prefix, a, b));
    out
}

/// Lexicographic "strictly less" on equal-length byte strings.
pub open spec fn lex_lt(x: Seq<u8>, y: Seq<u8>) -> bool
    decreases x.len(),
{
    if x.len() == 0 || y.len() == 0 {
        false
    } else if x[0] != y[0] {
        x[0] < y[0]
    } else {
        lex_lt(x.drop_first(), y.drop_first())
    }
}

proof fn lemma_lex_lt_push(x: Seq<u8>, y: Seq<u8>, a: u8, b: u8)
    requires
        x.len() == y.len(),
    ensures
        lex_lt(x.push(a), y.push(b)) == (lex_lt(x, y) || (x == y && a < b)),
    decreases x.len(),
{
    if x.len() == 0 {
        assert(x.push(a)[0] == a);
        assert(y.push(b)[0] == b);
        assert(x =~= y);
        assert(!lex_lt(x, y));
        if a == b {
            assert(x.push(a).drop_first() =~= Seq::<u8>::empty());
            assert(y.push(b).drop_first() =~= Seq::<u8>::empty());
            assert(!lex_lt(Seq::<u8>::empty(), Seq::<u8>::empty()));
        }
    } else {
        assert(x.push(a)[0] == x[0]);
        assert(y.push(b)[0] == y[0]);
        if x[0] == y[0] {
            assert(x.push(a).drop_first() =~= x.drop_first().push(a));
            assert(y.push(b).drop_first() =~= y.drop_first().push(b));
            lemma_lex_lt_push(x.drop_first(), y.drop_first(), a, b);
            if x.drop_first() == y.drop_first() {
                assert forall|i: int| 0 <= i < x.len() implies x[i] == y[i] by {
                    if i > 0 {
                        assert(x.drop_first()[i - 1] == y.drop_first()[i - 1]);
                    }
                }
                assert(x =~= y);
            }
            if x == y {
                assert(x.drop_first() == y.drop_first());
            }
        } else {
            assert(x != y);
        }
    }
}

/// 256 to the power `k`: the number of values that `k` bytes can hold.
pub open spec fn pow256(k: nat) -> int
    decreases k,
{
    if k == 0 {
        1
    } else {
        256 * pow256((k - 1) as nat)
    }
}

proof fn lemma_pow256_pos(k: nat)
    ensures
        pow256(k) >= 1,
    decreases k,
{
    if k > 0 {
        lemma_pow256_pos((k - 1) as nat);
    }
}

/// On numbers small enough to fit in `k` bytes, the big-endian encoding is
/// injective and lexicographic order agrees with numeric order.
proof fn lemma_be_bytes_order(n: u64, m: u64, k: nat)
    requires
        1 <= k,
        n < pow256(k),
        m < pow256(k),
    ensures
        lex_lt(be_bytes(n, k), be_bytes(m, k)) == (n < m),
        (be_bytes(n, k) == be_bytes(m, k)) == (n == m),
    decreases k,
{
    lemma_be_bytes_len(n, k);
    lemma_be_bytes_len(m, k);
    if k == 1 {
        assert(pow256(1) == 256 * pow256(0));
        assert(pow256(0) == 1);
        assert(n < 256 && m < 256);
        assert(n & 0xff == n) by (bit_vector)
            requires
                n < 256,
        ;
        assert(m & 0xff == m) by (bit_vector)
            requires
                m < 256,
        ;
        assert(be_bytes(n, 1) =~= seq![(n & 0xff) as u8]);
        assert(be_bytes(m, 1) =~= seq![(m & 0xff) as u8]);
        lemma_lex_lt_push(Seq::empty(), Seq::empty(), (n & 0xff) as u8, (m & 0xff) as u8);
        if be_bytes(n, 1) == be_bytes(m, 1) {
            assert(be_bytes(n, 1)[0] == be_bytes(m, 1)[0]);
        }
        if n == m {
            assert(be_bytes(n, 1) =~= be_bytes(m, 1));
        }
    } else {
        let kk = (k - 1) as nat;
        lemma_pow256_pos(kk);
        assert(n >> 8 == n / 256) by (bit_vector);
        assert(m >> 8 == m / 256) by (bit_vector);
        assert(n as int / 256 < pow256(kk)) by {
            assert(n < 256 * pow256(kk));
            vstd::arithmetic::div_mod::lemma_multiply_divide_lt(n as int, 256, pow256(kk));
        }
        assert(m as int / 256 < pow256(kk)) by {
            assert(m < 256 * pow256(kk));
            vstd::arithmetic::div_mod::lemma_multiply_divide_lt(m as int, 256, pow256(kk));
        }
        lemma_be_bytes_order(n >> 8, m >> 8, kk);
        lemma_be_bytes_len(n >> 8, kk);
        lemma_be_bytes_len(m >> 8, kk);
        assert(n & 0xff < 256) by (bit_vector);
        assert(m & 0xff < 256) by (bit_vector);
        lemma_lex_lt_push(
            be_bytes(n >> 8, kk),
            be_bytes(m >> 8, kk),
            (n & 0xff) as u8,
            (m & 0xff) as u8,
        );
        assert((n < m) == ((n >> 8 < m >> 8) || (n >> 8 == m >> 8 && (n & 0xff) < (m & 0xff))))
            by (bit_vector);
        assert((n == m) == (n >> 8 == m >> 8 && (n & 0xff) == (m & 0xff))) by (bit_vector);
        assert(((n & 0xff) as u8 == (m & 0xff) as u8) == ((n & 0xff) == (m & 0xff)));
        assert((((n & 0xff) as u8) < ((m & 0xff) as u8)) == ((n & 0xff) < (m & 0xff)));
        if n == m {
            assert(be_bytes(n, k) =~= be_bytes(m, k));
        }
        if be_bytes(n, k) == be_bytes(m, k) {
            assert(be_bytes(n, k).last() == be_bytes(m, k).last());
            assert(be_bytes(n, k).drop_last() =~= be_bytes(n >> 8, kk));
            assert(be_bytes(m, k).drop_last() =~= be_bytes(m >> 8, kk));
            assert(be_bytes(n >> 8, kk) == be_bytes(m >> 8, kk));
            assert(be_bytes(n, k).last() == (n & 0xff) as u8);
            assert(be_bytes(m, k).last() == (m & 0xff) as u8);
        }
        if lex_lt(be_bytes(n, k), be_bytes(m, k)) {
            assert(n < m);
        }
        if n < m {
            assert(lex_lt(be_bytes(n, k), be_bytes(m, k)));
        }
    }
}

proof fn lemma_pow256_8_exceeds_u64(n: u64)
    ensures
        n < pow256(8),
{
    assert(pow256(0) == 1);
    assert(pow256(1) == 256);
    assert(pow256(2) == 0x1_0000);
    assert(pow256(3) == 0x100_0000);
    assert(pow256(4) == 0x1_0000_0000);
    assert(pow256(5) == 0x100_0000_0000);
    assert(pow256(6) == 0x1_0000_0000_0000);
    assert(pow256(7) == 0x100_0000_0000_0000);
    assert(pow256(8) == 0x1_0000_0000_0000_0000);
}

/// Numeric order of 64-bit identifiers agrees with lexicographic order of
/// their big-endian encodings, and the encoding is injective.
pub proof fn lemma_u64_be_order(n: u64, m: u64)
    ensures
        lex_lt(u64_be(n), u64_be(m)) == (n < m),
        (u64_be(n) == u64_be(m)) == (n == m),
{
    lemma_pow256_8_exceeds_u64(n);
    lemma_pow256_8_exceeds_u64(m);
    lemma_be_bytes_order(n, m, 8);
}

/// Two single-identifier keys with the same category byte differ only in
/// their trailing 8 bytes, and comparing them lexicographically agrees with
/// comparing the identifiers numerically.
pub proof fn lemma_single_key_order(prefix: CachePrefix, a: u64, b: u64)
    ensures
        spec_single_key(prefix, a)[0] == spec_single_key(prefix, b)[0],
        spec_single_key(prefix, a).skip(1) == u64_be(a),
        spec_single_key(prefix, b).skip(1) == u64_be(b),
        lex_lt(spec_single_key(prefix, a), spec_single_key(prefix, b)) == (a < b),
        (spec_single_key(prefix, a) == spec_single_key(prefix, b)) == (a == b),
{
    lemma_u64_be_order(a, b);
    lemma_be_bytes_len(a, 8);
    lemma_be_bytes_len(b, 8);
    let ka = spec_single_key(prefix, a);
    let kb = spec_single_key(prefix, b);
    assert(ka.skip(1) =~= u64_be(a));
    assert(kb.skip(1) =~= u64_be(b));
    assert(ka.drop_first() =~= u64_be(a));
    assert(kb.drop_first() =~= u64_be(b));
    assert(lex_lt(ka, kb) == lex_lt(u64_be(a), u64_be(b)));
    if u64_be(a) == u64_be(b) {
        assert(ka =~= kb);
    }
    if ka == kb {
        assert(ka.drop_first() == kb.drop_first());
    }
}


/// The number encoded by big-endian bytes: the first byte is the most
/// significant.
pub open spec fn be_val(s: Seq<u8>) -> int
    decreases s.len(),
{
    if s.len() == 0 {
        0
    } else {
        256 * be_val(s.drop_last()) + s.last()
    }
}

proof fn lemma_be_val_bound(s: Seq<u8>)
    ensures
        0 <= be_val(s) < pow256(s.len()),
    decreases s.len(),
{
    lemma_pow256_pos(s.len());
    if s.len() > 0 {
        lemma_be_val_bound(s.drop_last());
    }
}

/// Decoding inverts encoding: the value of a number's big-endian bytes is
/// the number.
pub proof fn lemma_be_val_of_be_bytes(n: u64, k: nat)
    requires
        n < pow256(k),
    ensures
        be_val(be_bytes(n, k)) == n,
    decreases k,
{
    if k == 0 {
    } else {
        let kk = (k - 1) as nat;
        lemma_pow256_pos(kk);
        assert(n >> 8 == n / 256) by (bit_vector);
        assert(n as int / 256 < pow256(kk)) by {
            assert(n < 256 * pow256(kk));
            vstd::arithmetic::div_mod::lemma_multiply_divide_lt(n as int, 256, pow256(kk));
        }
        lemma_be_val_of_be_bytes(n >> 8, kk);
        lemma_be_bytes_len(n >> 8, kk);
        assert(be_bytes(n, k).drop_last() =~= be_bytes(n >> 8, kk));
        assert(be_bytes(n, k).last() == (n & 0xff) as u8);
        assert(n & 0xff < 256) by (bit_vector);
        assert(n == (n >> 8) * 256 + (n & 0xff)) by (bit_vector);
    }
}

/// Encoding inverts decoding: the big-endian bytes of a byte string's
/// value are the byte string itself.
pub proof fn lemma_be_bytes_of_be_val(s: Seq<u8>)
    requires
        s.len() <= 8,
    ensures
        0 <= be_val(s) <= u64::MAX,
        be_bytes(be_val(s) as u64, s.len()) == s,
    decreases s.len(),
{
    lemma_be_val_bound(s);
    assert(pow256(s.len()) <= pow256(8)) by {
        lemma_pow256_monotone(s.len(), 8);
    }
    lemma_pow256_8_value();
    if s.len() > 0 {
        let v = be_val(s);
        let q = be_val(s.drop_last());
        let last = s.last();
        lemma_be_val_bound(s.drop_last());
        lemma_be_bytes_of_be_val(s.drop_last());
        let vu = v as u64;
        assert(v == 256 * q + last);
        assert(vu >> 8 == vu / 256) by (bit_vector);
        assert(vu & 0xff == vu % 256) by (bit_vector);
        assert(v / 256 == q && v % 256 == last) by {
            vstd::arithmetic::div_mod::lemma_fundamental_div_mod_converse(
                v,
                256,
                q,
                last as int,
            );
        }
        assert(be_bytes(vu, s.len()) =~= be_bytes(vu >> 8, (s.len() - 1) as nat).push(
            (vu & 0xff) as u8,
        ));
        assert(be_bytes(vu >> 8, (s.len() - 1) as nat) == s.drop_last());
        assert(be_bytes(vu, s.len()) =~= s);
    } else {
        assert(be_bytes(0u64, 0) =~= s);
    }
}

proof fn lemma_pow256_monotone(a: nat, b: nat)
    requires
        a <= b,
    ensures
        pow256(a) <= pow256(b),
    decreases b,
{
    if a < b {
        lemma_pow256_monotone(a, (b - 1) as nat);
        lemma_pow256_pos((b - 1) as nat);
    }
}

proof fn lemma_pow256_8_value()
    ensures
        pow256(8) == 0x1_0000_0000_0000_0000,
{
    assert(pow256(0) == 1);
    assert(pow256(1) == 256);
    assert(pow256(2) == 0x1_0000);
    assert(pow256(3) == 0x100_0000);
    assert(pow256(4) == 0x1_0000_0000);
    assert(pow256(5) == 0x100_0000_0000);
    assert(pow256(6) == 0x1_0000_0000_0000);
    assert(pow256(7) == 0x100_0000_0000_0000);
}

/// Decoding a whole identifier's encoding gives the identifier back.
pub proof fn lemma_be_val_of_u64_be(n: u64)
    ensures
        be_val(u64_be(n)) == n,
{
    lemma_pow256_8_value();
    lemma_be_val_of_be_bytes(n, 8);
}

/// Reads a 64-bit identifier back from its 8 big-endian bytes.
pub fn decode_u64_be(s: &[u8]) -> (r: u64)
    requires
        s@.len() == 8,
    ensures
        u64_be(r) == s@,
        r == be_val(s@),
{
    let mut val: u64 = 0;
    let mut i: usize = 0;
    while i < 8
        invariant
            s@.len() == 8,
            i <= 8,
            val == be_val(s@.take(i as int)),
            val < pow256(i as nat),
        decreases 8 - i,
    {
        proof {
            lemma_pow256_8_value();
            lemma_pow256_monotone(i as nat, 7);
            assert(pow256(7) == 0x100_0000_0000_0000);
            assert(val * 256 + 255 < 0x1_0000_0000_0000_0000);
        }
        let b = *vstd::slice::slice_index_get(s, i);
        val = val * 256 + (b as u64);
        proof {
            assert(s@.take(i + 1).drop_last() =~= s@.take(i as int));
            assert(s@.take(i + 1).last() == s@[i as int]);
        }
        i = i + 1;
    }
    proof {
        assert(s@.take(8) =~= s@);
        lemma_be_bytes_of_be_val(s@);
    }
    val
}

} // verus!
