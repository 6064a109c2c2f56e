//! Byte codecs for the payloads the agreement engine carries through the
//! reliable-broadcast service.
//!
//! Every broadcast is framed as an interface record `{ id, msg }`: an
//! 8-byte little-endian tag, an 8-byte little-endian length, and the
//! payload bytes. The payloads themselves are integers and integer lists
//! in the same fixed-width little-endian shape, except the vote payload,
//! which is the 8-byte big-endian encoding of the endorsed party.
//! Encoding followed by decoding is the identity, proved below.

use vstd::prelude::*;
use vstd::arithmetic::div_mod::lemma_fundamental_div_mod;

verus! {

/// `256^k`.
pub open spec fn p256(k: nat) -> int
    decreases k,
{
    if k == 0 {
        1
    } else {
        256 * p256((k - 1) as nat)
    }
}

pub proof fn lemma_p256_8()
    ensures
        p256(8) == 0x1_0000_0000_0000_0000,
{
    reveal_with_fuel(p256, 9);
}

pub proof fn lemma_p256_positive(k: nat)
    ensures
        p256(k) >= 1,
    decreases k,
{
    if k > 0 {
        lemma_p256_positive((k - 1) as nat);
    }
}

/// The `k` little-endian base-256 digits of `x`.
pub open spec fn le_bytes(x: int, k: nat) -> Seq<u8>
    decreases k,
{
    if k == 0 {
        Seq::empty()
    } else {
        seq![(x % 256) as u8] + le_bytes(x / 256, (k - 1) as nat)
    }
}

/// The integer with little-endian base-256 digits `s`.
pub open spec fn de_le(s: Seq<u8>) -> int
    decreases s.len(),
{
    if s.len() == 0 {
        0
    } else {
        s[0] + 256 * de_le(s.drop_first())
    }
}

pub proof fn lemma_le_bytes_len(x: int, k: nat)
    ensures
        le_bytes(x, k).len() == k,
    decreases k,
{
    if k > 0 {
        lemma_le_bytes_len(x / 256, (k - 1) as nat);
    }
}

/// Decoding the digits of `x` gives `x` back.
pub proof fn lemma_le_round_trip(x: int, k: nat)
    requires
        0 <= x < p256(k),
    ensures
        de_le(le_bytes(x, k)) == x,
    decreases k,
{
    if k > 0 {
        lemma_p256_positive((k - 1) as nat);
        lemma_fundamental_div_mod(x, 256);
        assert(x / 256 < p256((k - 1) as nat)) by {
            if x / 256 >= p256((k - 1) as nat) {
                assert(x >= 256 * p256((k - 1) as nat));
            }
        }
        lemma_le_round_trip(x / 256, (k - 1) as nat);
        lemma_le_bytes_len(x / 256, (k - 1) as nat);
        assert(le_bytes(x, k).drop_first() =~= le_bytes(x / 256, (k - 1) as nat));
    }
}

/// Any digit string decodes below `256^len`.
pub proof fn lemma_de_le_bound(s: Seq<u8>)
    ensures
        0 <= de_le(s) < p256(s.len()),
    decreases s.len(),
{
    if s.len() == 0 {
    } else {
        lemma_de_le_bound(s.drop_first());
    }
}

/// Re-encoding the decoded value gives the digit string back.
pub proof fn lemma_le_bytes_of_de(s: Seq<u8>)
    ensures
        le_bytes(de_le(s), s.len()) =~= s,
    decreases s.len(),
{
    if s.len() > 0 {
        let x = de_le(s);
        let rest = s.drop_first();
        lemma_de_le_bound(rest);
        assert(x == s[0] + 256 * de_le(rest));
        assert(x % 256 == s[0] && x / 256 == de_le(rest)) by {
            vstd::arithmetic::div_mod::lemma_fundamental_div_mod_converse(
                x, 256, de_le(rest), s[0] as int);
        }
        lemma_le_bytes_of_de(rest);
        lemma_le_bytes_len(x / 256, (rest.len()) as nat);
        assert(le_bytes(x, s.len()) =~= s);
    }
}

/// The 8-byte little-endian encoding of `x`.
pub open spec fn le8(x: u64) -> Seq<u8> {
    le_bytes(x as int, 8)
}

/// The 8-byte big-endian encoding of `x`, as `u64::to_be_bytes` writes it.
pub open spec fn be8(x: u64) -> Seq<u8> {
    le8(x).reverse()
}

pub proof fn lemma_u64_lt_p256_8(x: u64)
    ensures
        0 <= x < p256(8),
{
    lemma_p256_8();
}

/// Appends the 8 little-endian bytes of `x` to `out`.
pub fn push_le8(out: &mut Vec<u8>, x: u64)
    ensures
        final(out)@ =~= old(out)@ + le8(x),
{
    let mut y: u64 = x;
    let mut i: usize = 0;
    while i < 8
        invariant
            i <= 8,
            out@.len() == old(out)@.len() + i,
            old(out)@ + le_bytes(x as int, 8) =~= out@ + le_bytes(y as int, (8 - i) as nat),
        decreases 8 - i,
    {
        let b: u8 = (y % 256) as u8;
        proof {
            assert(le_bytes(y as int, (8 - i) as nat) =~=
                seq![(y as int % 256) as u8] + le_bytes(y as int / 256, (8 - i - 1) as nat));
        }
        out.push(b);
        y = y / 256;
        i = i + 1;
    }
}

/// Reads the 8 bytes at `off` as a little-endian integer.
pub fn read_le8(b: &Vec<u8>, off: usize) -> (r: u64)
    requires
        off + 8 <= b@.len(),
    ensures
        r as int == de_le(b@.subrange(off as int, off as int + 8)),
{
    let blen: usize = b.len();
    let mut acc: u64 = 0;
    let mut j: usize = 8;
    while j > 0
        invariant
            j <= 8,
            off + 8 <= b@.len(),
            b@.len() <= usize::MAX,
            acc as int == de_le(b@.subrange(off + j, off as int + 8)),
            acc < p256((8 - j) as nat),
        decreases j,
    {
        proof {
            let s = b@.subrange(off + j - 1, off as int + 8);
            assert(s.drop_first() =~= b@.subrange(off + j, off as int + 8));
            lemma_de_le_bound(b@.subrange(off + j, off as int + 8));
            assert(p256((8 - (j - 1)) as nat) == 256 * p256((8 - j) as nat));
            lemma_p256_8();
            lemma_p256_le_monotone((8 - (j - 1)) as nat, 8);
        }
        j = j - 1;
        acc = acc * 256 + (b[off + j] as u64);
    }
    proof {
        assert(b@.subrange(off as int, off as int + 8) =~= b@.subrange(off + 0, off as int + 8));
    }
    acc
}

pub proof fn lemma_p256_le_monotone(a: nat, b: nat)
    requires
        a <= b,
    ensures
        p256(a) <= p256(b),
    decreases b,
{
    if a < b {
        lemma_p256_le_monotone(a, (b - 1) as nat);
        lemma_p256_positive((b - 1) as nat);
    }
}

/// Appends the 8 big-endian bytes of `x` to `out`.
pub fn push_be8(out: &mut Vec<u8>, x: u64)
    ensures
        final(out)@ =~= old(out)@ + be8(x),
{
    let mut le: Vec<u8> = Vec::new();
    push_le8(&mut le, x);
    proof {
        lemma_le_bytes_len(x as int, 8);
    }
    let mut j: usize = 8;
    while j > 0
        invariant
            j <= 8,
            le@ =~= le8(x),
            le@.len() == 8,
            out@ =~= old(out)@ + le8(x).reverse().take((8 - j) as int),
        decreases j,
    {
        proof {
            lemma_le_bytes_len(x as int, 8);
        }
        j = j - 1;
        out.push(le[j]);
        proof {
            assert(le8(x).reverse()[8 - j - 1] == le8(x)[j as int]);
            assert(le8(x).reverse().take((8 - j) as int) =~=
                le8(x).reverse().take((8 - j - 1) as int).push(le8(x).reverse()[8 - j - 1]));
        }
    }
    proof {
        lemma_le_bytes_len(x as int, 8);
        assert(le8(x).reverse().take(8) =~= be8(x));
    }
}

/// Reads the 8 bytes at `off` as a big-endian integer.
pub fn read_be8(b: &Vec<u8>, off: usize) -> (r: u64)
    requires
        off + 8 <= b@.len(),
    ensures
        be8(r) =~= b@.subrange(off as int, off as int + 8),
        r as int == de_le(b@.subrange(off as int, off as int + 8).reverse()),
{
    let blen: usize = b.len();
    let mut acc: u64 = 0;
    let mut j: usize = 8;
    let ghost s = b@.subrange(off as int, off as int + 8).reverse();
    while j > 0
        invariant
            j <= 8,
            off + 8 <= b@.len(),
            b@.len() <= usize::MAX,
            s =~= b@.subrange(off as int, off as int + 8).reverse(),
            acc as int == de_le(s.subrange(j as int, 8)),
            acc < p256((8 - j) as nat),
        decreases j,
    {
        proof {
            let seg = s.subrange(j - 1, 8);
            assert(seg.drop_first() =~= s.subrange(j as int, 8));
            lemma_de_le_bound(s.subrange(j as int, 8));
            assert(p256((8 - (j - 1)) as nat) == 256 * p256((8 - j) as nat));
            lemma_p256_8();
            lemma_p256_le_monotone((8 - (j - 1)) as nat, 8);
            assert(s[j - 1] == b@[off as int + 7 - (j - 1)]);
        }
        j = j - 1;
        acc = acc * 256 + (b[off + 7 - j] as u64);
    }
    proof {
        assert(s.subrange(0, 8) =~= s);
        lemma_le_bytes_of_de(s);
        lemma_u64_lt_p256_8(acc);
        assert(le8(acc) =~= s);
        assert(le8(acc).reverse() =~= b@.subrange(off as int, off as int + 8));
    }
    acc
}

/// The interface record every reliable broadcast of the engine carries:
/// a tag choosing the layer (proposal, witness list, pre-broadcast, vote)
/// and the payload bytes of that layer.
pub struct RbcInterface {
    pub id: u64,
    pub msg: Vec<u8>,
}

/// Frame: 8-byte tag, 8-byte payload length, payload.
pub open spec fn enc_interface(id: u64, msg: Seq<u8>) -> Seq<u8> {
    le8(id) + le8(msg.len() as u64) + msg
}

/// The decoded tag and payload, when the frame is well formed: at least 16
/// bytes, and a length word that matches the remainder exactly.
pub open spec fn dec_interface(b: Seq<u8>) -> Option<(u64, Seq<u8>)> {
    if b.len() >= 16 && de_le(b.subrange(8, 16)) == b.len() - 16 {
        Some((de_le(b.subrange(0, 8)) as u64, b.subrange(16, b.len() as int)))
    } else {
        None
    }
}

/// Decoding inverts encoding: the round-trip law of the interface record.
pub proof fn lemma_interface_round_trip(id: u64, msg: Seq<u8>)
    requires
        msg.len() < 0x1_0000_0000,
    ensures
        dec_interface(enc_interface(id, msg)) == Some((id, msg)),
{
    let e = enc_interface(id, msg);
    lemma_le_bytes_len(id as int, 8);
    lemma_le_bytes_len(msg.len() as int, 8);
    assert(e.len() == 16 + msg.len());
    assert(e.subrange(0, 8) =~= le8(id));
    assert(e.subrange(8, 16) =~= le8(msg.len() as u64));
    assert(e.subrange(16, e.len() as int) =~= msg);
    lemma_u64_lt_p256_8(id);
    lemma_le_round_trip(id as int, 8);
    lemma_u64_lt_p256_8(msg.len() as u64);
    lemma_le_round_trip(msg.len() as int, 8);
}

impl RbcInterface {
    /// Encodes the record into its frame.
    pub fn encode(&self) -> (r: Vec<u8>)
        requires
            self.msg@.len() < 0x1_0000_0000,
        ensures
            r@ =~= enc_interface(self.id, self.msg@),
    {
        let mut out: Vec<u8> = Vec::new();
        push_le8(&mut out, self.id);
        push_le8(&mut out, self.msg.len() as u64);
        let mut i: usize = 0;
        while i < self.msg.len()
            invariant
                i <= self.msg@.len(),
                out@ =~= le8(self.id) + le8(self.msg@.len() as u64) + self.msg@.take(i as int),
            decreases self.msg@.len() - i,
        {
            proof {
                assert(self.msg@.take(i + 1) =~= self.msg@.take(i as int).push(self.msg@[i as int]));
            }
            out.push(self.msg[i]);
            i = i + 1;
        }
        proof {
            assert(self.msg@.take(self.msg@.len() as int) =~= self.msg@);
        }
        out
    }

    /// Decodes a frame; a malformed frame yields `None` and is dropped by
    /// every caller, as the failure rules of the engine demand.
    pub fn decode(b: &Vec<u8>) -> (r: Option<RbcInterface>)
        ensures
            r is Some <==> dec_interface(b@) is Some,
            r is Some ==> {
                &&& dec_interface(b@) == Some((r->Some_0.id, r->Some_0.msg@))
                &&& enc_interface(r->Some_0.id, r->Some_0.msg@) =~= b@
            },
    {
        if b.len() < 16 {
            return None;
        }
        let id = read_le8(b, 0);
        let len = read_le8(b, 8);
        proof {
            lemma_de_le_bound(b@.subrange(8, 16));
            lemma_p256_8();
        }
        if !(len <= u64::MAX - 16) {
            return None;
        }
        if (b.len() as u64) - 16 != len {
            return None;
        }
        let mut msg: Vec<u8> = Vec::new();
        let mut i: usize = 16;
        while i < b.len()
            invariant
                16 <= i <= b@.len(),
                msg@ =~= b@.subrange(16, i as int),
            decreases b@.len() - i,
        {
            proof {
                assert(b@.subrange(16, i + 1) =~= b@.subrange(16, i as int).push(b@[i as int]));
            }
            msg.push(b[i]);
            i = i + 1;
        }
        proof {
            lemma_le_bytes_of_de(b@.subrange(0, 8));
            lemma_le_bytes_of_de(b@.subrange(8, 16));
            assert(enc_interface(id, msg@) =~= b@);
        }
        Some(RbcInterface { id, msg })
    }
}

/// A list of party identifiers, in the shape the serializer of the source
/// network gives a vector: an 8-byte length, then 8 bytes per element.
pub open spec fn enc_u64_list(xs: Seq<u64>) -> Seq<u8> {
    le8(xs.len() as u64) + enc_u64_elems(xs)
}

pub open spec fn enc_u64_elems(xs: Seq<u64>) -> Seq<u8>
    decreases xs.len(),
{
    if xs.len() == 0 {
        Seq::empty()
    } else {
        le8(xs[0]) + enc_u64_elems(xs.drop_first())
    }
}

pub proof fn lemma_enc_u64_elems_len(xs: Seq<u64>)
    ensures
        enc_u64_elems(xs).len() == 8 * xs.len(),
    decreases xs.len(),
{
    if xs.len() > 0 {
        lemma_le_bytes_len(xs[0] as int, 8);
        lemma_enc_u64_elems_len(xs.drop_first());
    }
}

/// Appends the encoding of `xs` to `out`.
pub fn push_u64_list(out: &mut Vec<u8>, xs: &Vec<u64>)
    requires
        xs@.len() < 0x1_0000_0000,
    ensures
        final(out)@ =~= old(out)@ + enc_u64_list(xs@),
{
    push_le8(out, xs.len() as u64);
    let mut i: usize = 0;
    while i < xs.len()
        invariant
            i <= xs@.len(),
            out@ =~= old(out)@ + le8(xs@.len() as u64) + enc_u64_elems(xs@.take(i as int)),
        decreases xs@.len() - i,
    {
        push_le8(out, xs[i]);
        proof {
            lemma_enc_elems_snoc(xs@.take(i + 1));
            assert(xs@.take(i + 1).drop_last() =~= xs@.take(i as int));
        }
        i = i + 1;
    }
    proof {
        assert(xs@.take(xs@.len() as int) =~= xs@);
    }
}

pub proof fn lemma_enc_elems_snoc(xs: Seq<u64>)
    requires
        xs.len() > 0,
    ensures
        enc_u64_elems(xs) =~= enc_u64_elems(xs.drop_last()) + le8(xs.last()),
    decreases xs.len(),
{
    if xs.len() == 1 {
        assert(xs.drop_first() =~= Seq::<u64>::empty());
        assert(xs.drop_last() =~= Seq::<u64>::empty());
    } else {
        lemma_enc_elems_snoc(xs.drop_first());
        assert(xs.drop_first().drop_last() =~= xs.drop_last().drop_first());
        assert(xs.drop_first().last() == xs.last());
        assert(xs.drop_last()[0] == xs[0]);
    }
}

/// Reads a `u64` list that occupies `b` from `off` to its end; `None` when
/// the length word does not match the remainder.
pub fn read_u64_list_exact(b: &Vec<u8>, off: usize) -> (r: Option<Vec<u64>>)
    requires
        off <= b@.len(),
    ensures
        r is Some ==> off as int + enc_u64_list(r->Some_0@).len() == b@.len()
            && enc_u64_list(r->Some_0@) =~= b@.subrange(off as int, b@.len() as int),
    {
    if b.len() - off < 8 {
        return None;
    }
    let k = read_le8(b, off);
    proof {
        lemma_de_le_bound(b@.subrange(off as int, off as int + 8));
        lemma_p256_8();
    }
    if k > 0xffff_ffffu64 {
        return None;
    }
    let k = k as usize;
    if (b.len() - off - 8) / 8 != k || (b.len() - off - 8) % 8 != 0 {
        return None;
    }
    proof {
        lemma_fundamental_div_mod(b@.len() - off - 8, 8);
        assert(b@.len() == off + 8 + 8 * k);
    }
    let blen: usize = b.len();
    let mut xs: Vec<u64> = Vec::new();
    let mut i: usize = 0;
    while i < k
        invariant
            i <= k,
            b@.len() == off + 8 + 8 * k,
            b@.len() <= usize::MAX,
            xs@.len() == i,
            enc_u64_elems(xs@) =~= b@.subrange(off + 8, off + 8 + 8 * i as int),
            forall|j: int| 0 <= j < i ==>
                le8(#[trigger] xs@[j]) =~= b@.subrange(off + 8 + 8 * j, off + 8 + 8 * j + 8),
        decreases k - i,
    {
        let x = read_le8(b, off + 8 + 8 * i);
        proof {
            lemma_de_le_bound(b@.subrange(off + 8 + 8 * i as int, off + 8 + 8 * i as int + 8));
            lemma_p256_8();
            lemma_le_bytes_of_de(b@.subrange(off + 8 + 8 * i as int, off + 8 + 8 * i as int + 8));
        }
        let ghost xs_before = xs@;
        xs.push(x);
        proof {
            lemma_enc_elems_snoc(xs@);
            assert(xs@.drop_last() =~= xs_before);
            lemma_enc_u64_elems_len(xs@);
            assert(enc_u64_elems(xs@) =~= b@.subrange(off + 8, off + 8 + 8 * (i + 1) as int));
        }
        i = i + 1;
    }
    proof {
        lemma_u64_lt_p256_8(k as u64);
        lemma_le_bytes_of_de(b@.subrange(off as int, off as int + 8));
        assert(le8(xs@.len() as u64) =~= b@.subrange(off as int, off as int + 8));
        lemma_enc_u64_elems_len(xs@);
        assert(enc_u64_list(xs@) =~= b@.subrange(off as int, b@.len() as int));
    }
    Some(xs)
}

/// Encoding then decoding a list restores it.
pub proof fn lemma_u64_list_round_trip(xs: Seq<u64>, ys: Seq<u64>)
    requires
        enc_u64_list(xs) == enc_u64_list(ys),
        xs.len() < 0x1_0000_0000,
        ys.len() < 0x1_0000_0000,
    ensures
        xs =~= ys,
{
    lemma_le_bytes_len(xs.len() as int, 8);
    lemma_le_bytes_len(ys.len() as int, 8);
    assert(enc_u64_list(xs).subrange(0, 8) =~= le8(xs.len() as u64));
    assert(enc_u64_list(ys).subrange(0, 8) =~= le8(ys.len() as u64));
    lemma_u64_lt_p256_8(xs.len() as u64);
    lemma_u64_lt_p256_8(ys.len() as u64);
    lemma_le_round_trip(xs.len() as int, 8);
    lemma_le_round_trip(ys.len() as int, 8);
    assert(xs.len() == ys.len());
    lemma_enc_u64_elems_len(xs);
    lemma_enc_u64_elems_len(ys);
    assert(enc_u64_elems(xs) =~= enc_u64_list(xs).subrange(8, enc_u64_list(xs).len() as int));
    assert(enc_u64_elems(ys) =~= enc_u64_list(ys).subrange(8, enc_u64_list(ys).len() as int));
    lemma_u64_elems_injective(xs, ys);
}

pub proof fn lemma_u64_elems_injective(xs: Seq<u64>, ys: Seq<u64>)
    requires
        xs.len() == ys.len(),
        enc_u64_elems(xs) == enc_u64_elems(ys),
    ensures
        xs =~= ys,
    decreases xs.len(),
{
    if xs.len() > 0 {
        lemma_le_bytes_len(xs[0] as int, 8);
        lemma_le_bytes_len(ys[0] as int, 8);
        lemma_enc_u64_elems_len(xs.drop_first());
        lemma_enc_u64_elems_len(ys.drop_first());
        assert(le8(xs[0]) =~= enc_u64_elems(xs).subrange(0, 8));
        assert(le8(ys[0]) =~= enc_u64_elems(ys).subrange(0, 8));
        lemma_u64_lt_p256_8(xs[0]);
        lemma_u64_lt_p256_8(ys[0]);
        lemma_le_round_trip(xs[0] as int, 8);
        lemma_le_round_trip(ys[0] as int, 8);
        assert(xs[0] == ys[0]);
        assert(enc_u64_elems(xs.drop_first()) =~=
            enc_u64_elems(xs).subrange(8, enc_u64_elems(xs).len() as int));
        assert(enc_u64_elems(ys.drop_first()) =~=
            enc_u64_elems(ys).subrange(8, enc_u64_elems(ys).len() as int));
        lemma_u64_elems_injective(xs.drop_first(), ys.drop_first());
        assert forall|i: int| 0 <= i < xs.len() implies xs[i] == ys[i] by {
            if i > 0 {
                assert(xs.drop_first()[i - 1] == ys.drop_first()[i - 1]);
            }
        }
    }
}

} // verus!
// The pre-broadcast payload is a triple: the endorsed witness, the list of
// key-sharing dealers, and the justification pairs. The triple is encoded
// as its fields in order, each list length-prefixed.

verus! {

/// A list of party pairs: an 8-byte length, then 16 bytes per pair.
pub open spec fn enc_pair_list(xs: Seq<(u64, u64)>) -> Seq<u8> {
    le8(xs.len() as u64) + enc_pair_elems(xs)
}

pub open spec fn enc_pair_elems(xs: Seq<(u64, u64)>) -> Seq<u8>
    decreases xs.len(),
{
    if xs.len() == 0 {
        Seq::empty()
    } else {
        le8(xs[0].0) + le8(xs[0].1) + enc_pair_elems(xs.drop_first())
    }
}

pub proof fn lemma_enc_pair_elems_len(xs: Seq<(u64, u64)>)
    ensures
        enc_pair_elems(xs).len() == 16 * xs.len(),
    decreases xs.len(),
{
    if xs.len() > 0 {
        lemma_le_bytes_len(xs[0].0 as int, 8);
        lemma_le_bytes_len(xs[0].1 as int, 8);
        lemma_enc_pair_elems_len(xs.drop_first());
    }
}

pub proof fn lemma_enc_pair_elems_snoc(xs: Seq<(u64, u64)>)
    requires
        xs.len() > 0,
    ensures
        enc_pair_elems(xs) =~= enc_pair_elems(xs.drop_last()) + le8(xs.last().0) + le8(xs.last().1),
    decreases xs.len(),
{
    if xs.len() == 1 {
        assert(xs.drop_first() =~= Seq::<(u64, u64)>::empty());
        assert(xs.drop_last() =~= Seq::<(u64, u64)>::empty());
    } else {
        lemma_enc_pair_elems_snoc(xs.drop_first());
        assert(xs.drop_first().drop_last() =~= xs.drop_last().drop_first());
        assert(xs.drop_first().last() == xs.last());
        assert(xs.drop_last()[0] == xs[0]);
    }
}

/// Appends the encoding of the pair list to `out`.
pub fn push_pair_list(out: &mut Vec<u8>, xs: &Vec<(u64, u64)>)
    requires
        xs@.len() < 0x1_0000_0000,
    ensures
        final(out)@ =~= old(out)@ + enc_pair_list(xs@),
{
    push_le8(out, xs.len() as u64);
    let mut i: usize = 0;
    while i < xs.len()
        invariant
            i <= xs@.len(),
            out@ =~= old(out)@ + le8(xs@.len() as u64) + enc_pair_elems(xs@.take(i as int)),
        decreases xs@.len() - i,
    {
        push_le8(out, xs[i].0);
        push_le8(out, xs[i].1);
        proof {
            lemma_enc_pair_elems_snoc(xs@.take(i + 1));
            assert(xs@.take(i + 1).drop_last() =~= xs@.take(i as int));
            assert(xs@.take(i + 1).last() == xs@[i as int]);
        }
        i = i + 1;
    }
    proof {
        assert(xs@.take(xs@.len() as int) =~= xs@);
    }
}

/// Reads a `u64` list starting at `off`; returns the list and the offset
/// just past it.
pub fn read_u64_list_at(b: &Vec<u8>, off: usize) -> (r: Option<(Vec<u64>, usize)>)
    requires
        off <= b@.len(),
    ensures
        r is Some ==> {
            &&& off as int + enc_u64_list(r->Some_0.0@).len() == r->Some_0.1 as int
            &&& r->Some_0.1 <= b@.len()
            &&& enc_u64_list(r->Some_0.0@) =~= b@.subrange(off as int, r->Some_0.1 as int)
        },
{
    let blen: usize = b.len();
    if blen - off < 8 {
        return None;
    }
    let k = read_le8(b, off);
    proof {
        lemma_de_le_bound(b@.subrange(off as int, off as int + 8));
        lemma_p256_8();
    }
    if k > 0xffff_ffffu64 {
        return None;
    }
    let k = k as usize;
    if (blen - off - 8) / 8 < k {
        return None;
    }
    proof {
        vstd::arithmetic::div_mod::lemma_fundamental_div_mod(b@.len() - off - 8, 8);
        assert((b@.len() - off - 8) % 8 >= 0 && (b@.len() - off - 8) % 8 < 8) by {
            vstd::arithmetic::div_mod::lemma_mod_bound(b@.len() - off - 8, 8);
        }
        assert(off + 8 + 8 * k <= b@.len());
    }
    let mut xs: Vec<u64> = Vec::new();
    let mut i: usize = 0;
    while i < k
        invariant
            i <= k,
            off + 8 + 8 * k <= b@.len(),
            b@.len() <= usize::MAX,
            xs@.len() == i,
            enc_u64_elems(xs@) =~= b@.subrange(off + 8, off + 8 + 8 * i as int),
        decreases k - i,
    {
        let x = read_le8(b, off + 8 + 8 * i);
        proof {
            lemma_de_le_bound(b@.subrange(off + 8 + 8 * i as int, off + 8 + 8 * i as int + 8));
            lemma_p256_8();
            lemma_le_bytes_of_de(b@.subrange(off + 8 + 8 * i as int, off + 8 + 8 * i as int + 8));
        }
        let ghost xs_before = xs@;
        xs.push(x);
        proof {
            lemma_enc_elems_snoc(xs@);
            assert(xs@.drop_last() =~= xs_before);
            lemma_enc_u64_elems_len(xs@);
            assert(enc_u64_elems(xs@) =~= b@.subrange(off + 8, off + 8 + 8 * (i + 1) as int));
        }
        i = i + 1;
    }
    proof {
        lemma_u64_lt_p256_8(k as u64);
        lemma_le_bytes_of_de(b@.subrange(off as int, off as int + 8));
        assert(le8(xs@.len() as u64) =~= b@.subrange(off as int, off as int + 8));
        lemma_enc_u64_elems_len(xs@);
        assert(enc_u64_list(xs@) =~= b@.subrange(off as int, off + 8 + 8 * k as int));
    }
    Some((xs, off + 8 + 8 * k))
}

/// Reads a pair list starting at `off`; returns the list and the offset
/// just past it.
pub fn read_pair_list_at(b: &Vec<u8>, off: usize) -> (r: Option<(Vec<(u64, u64)>, usize)>)
    requires
        off <= b@.len(),
    ensures
        r is Some ==> {
            &&& off as int + enc_pair_list(r->Some_0.0@).len() == r->Some_0.1 as int
            &&& r->Some_0.1 <= b@.len()
            &&& enc_pair_list(r->Some_0.0@) =~= b@.subrange(off as int, r->Some_0.1 as int)
        },
{
    let blen: usize = b.len();
    if blen - off < 8 {
        return None;
    }
    let k = read_le8(b, off);
    proof {
        lemma_de_le_bound(b@.subrange(off as int, off as int + 8));
        lemma_p256_8();
    }
    if k > 0xffff_ffffu64 {
        return None;
    }
    let k = k as usize;
    if (blen - off - 8) / 16 < k {
        return None;
    }
    proof {
        vstd::arithmetic::div_mod::lemma_fundamental_div_mod(b@.len() - off - 8, 16);
        assert((b@.len() - off - 8) % 16 >= 0 && (b@.len() - off - 8) % 16 < 16) by {
            vstd::arithmetic::div_mod::lemma_mod_bound(b@.len() - off - 8, 16);
        }
        assert(off + 8 + 16 * k <= b@.len());
    }
    let mut xs: Vec<(u64, u64)> = Vec::new();
    let mut i: usize = 0;
    while i < k
        invariant
            i <= k,
            off + 8 + 16 * k <= b@.len(),
            b@.len() <= usize::MAX,
            xs@.len() == i,
            enc_pair_elems(xs@) =~= b@.subrange(off + 8, off + 8 + 16 * i as int),
        decreases k - i,
    {
        let x0 = read_le8(b, off + 8 + 16 * i);
        let x1 = read_le8(b, off + 8 + 16 * i + 8);
        proof {
            lemma_de_le_bound(b@.subrange(off + 8 + 16 * i as int, off + 8 + 16 * i as int + 8));
            lemma_de_le_bound(b@.subrange(off + 8 + 16 * i as int + 8, off + 8 + 16 * i as int + 16));
            lemma_p256_8();
            lemma_le_bytes_of_de(b@.subrange(off + 8 + 16 * i as int, off + 8 + 16 * i as int + 8));
            lemma_le_bytes_of_de(b@.subrange(off + 8 + 16 * i as int + 8, off + 8 + 16 * i as int + 16));
        }
        let ghost xs_before = xs@;
        xs.push((x0, x1));
        proof {
            lemma_enc_pair_elems_snoc(xs@);
            assert(xs@.drop_last() =~= xs_before);
            lemma_enc_pair_elems_len(xs@);
            assert(enc_pair_elems(xs@) =~= b@.subrange(off + 8, off + 8 + 16 * (i + 1) as int));
        }
        i = i + 1;
    }
    proof {
        lemma_u64_lt_p256_8(k as u64);
        lemma_le_bytes_of_de(b@.subrange(off as int, off as int + 8));
        assert(le8(xs@.len() as u64) =~= b@.subrange(off as int, off as int + 8));
        lemma_enc_pair_elems_len(xs@);
        assert(enc_pair_list(xs@) =~= b@.subrange(off as int, off + 8 + 16 * k as int));
    }
    Some((xs, off + 8 + 16 * k))
}

} // verus!
