//! Options as a two-byte code, a two-byte length and a payload.

use vstd::prelude::*;
use vstd::slice::slice_subrange;

use crate::net::be_value;

verus! {

/// One option: its code and its payload.
pub struct Tlv {
    pub code: u16,
    pub data: Seq<u8>,
}

/// The number that two big-endian bytes spell.
pub open spec fn be16(high: u8, low: u8) -> u16 {
    (high * 256 + low) as u16
}

/// Whether `bytes` starts with an option whose payload is all there.
pub open spec fn starts_complete(bytes: Seq<u8>) -> bool {
    bytes.len() >= 4 && bytes.len() - 4 >= be16(bytes[2], bytes[3])
}

/// The options at the front of `bytes`, up to the first that is cut short.
pub open spec fn options(bytes: Seq<u8>) -> Seq<Tlv>
    decreases bytes.len(),
{
    if starts_complete(bytes) {
        let len = be16(bytes[2], bytes[3]) as int;
        seq![Tlv { code: be16(bytes[0], bytes[1]), data: bytes.subrange(4, 4 + len) }] + options(
            bytes.subrange(4 + len, bytes.len() as int),
        )
    } else {
        Seq::empty()
    }
}

/// What follows the last complete option.
pub open spec fn leftover(bytes: Seq<u8>) -> Seq<u8>
    decreases bytes.len(),
{
    if starts_complete(bytes) {
        let len = be16(bytes[2], bytes[3]) as int;
        leftover(bytes.subrange(4 + len, bytes.len() as int))
    } else {
        bytes
    }
}

/// An option read from a byte slice.
#[derive(Clone, Copy, Debug)]
pub struct RawOption<'a> {
    pub code: u16,
    pub data: &'a [u8],
}

impl<'a> View for RawOption<'a> {
    type V = Tlv;

    open spec fn view(&self) -> Tlv {
        Tlv { code: self.code, data: self.data@ }
    }
}

/// `found` holds the options `expected`.
pub open spec fn holds(found: Seq<RawOption>, expected: Seq<Tlv>) -> bool {
    &&& found.len() == expected.len()
    &&& forall|i: int| 0 <= i < found.len() ==> (#[trigger] found[i])@ == expected[i]
}

/// The number that two big-endian bytes spell.
pub fn read_u16(high: u8, low: u8) -> (r: u16)
    ensures
        r == be16(high, low),
        r == high * 256 + low,
{
    high as u16 * 256 + low as u16
}

/// Reads the options at the front of `data` and hands back what follows the last complete one.
pub fn split_options<'a>(data: &'a [u8]) -> (r: (Vec<RawOption<'a>>, &'a [u8]))
    ensures
        holds(r.0@, options(data@)),
        r.1@ == leftover(data@),
{
    let mut found: Vec<RawOption<'a>> = Vec::new();
    let mut rest: &'a [u8] = data;
    let ghost mut done: Seq<Tlv> = Seq::empty();
    proof {
        assert(done + options(rest@) =~= options(data@));
    }
    while rest.len() >= 4
        invariant
            holds(found@, done),
            done + options(rest@) == options(data@),
            leftover(rest@) == leftover(data@),
        ensures
            holds(found@, done),
            done + options(rest@) == options(data@),
            leftover(rest@) == leftover(data@),
            !starts_complete(rest@),
        decreases rest.len(),
    {
        let code: u16 = read_u16(rest[0], rest[1]);
        let len: usize = read_u16(rest[2], rest[3]) as usize;
        if rest.len() - 4 < len {
            break;
        }
        let payload = slice_subrange(rest, 4, 4 + len);
        let option = RawOption { code, data: payload };
        let tail = slice_subrange(rest, 4 + len, rest.len());
        proof {
            assert(option@ == options(rest@)[0]);
            assert(done.push(option@) + options(tail@) =~= done + options(rest@));
            done = done.push(option@);
        }
        found.push(option);
        rest = tail;
    }
    proof {
        assert(done =~= options(data@));
    }
    (found, rest)
}

/// The options at the front of `data`, up to the first that is cut short.
pub fn iter_opts<'a>(data: &'a [u8]) -> (r: Vec<RawOption<'a>>)
    ensures
        holds(r@, options(data@)),
{
    split_options(data).0
}

/// `bytes` followed by zeros up to `width` bytes.
pub open spec fn zero_padded(bytes: Seq<u8>, width: int) -> Seq<u8> {
    Seq::new(width as nat, |i: int| if i < bytes.len() { bytes[i] } else { 0u8 })
}

/// Reads a number of at most sixteen bytes, with zeros for the bytes that are missing at the end.
pub fn read_padded(bytes: &[u8], width: usize) -> (r: u128)
    requires
        width <= 16,
        bytes.len() <= width,
    ensures
        r == be_value(zero_padded(bytes@, width as int)),
        width <= 4 ==> r < 0x1_0000_0000,
{
    let ghost all = zero_padded(bytes@, width as int);
    let mut value: u128 = 0;
    let mut i: usize = 0;
    proof {
        assert(all.take(0).len() == 0);
    }
    while i < width
        invariant
            i <= width <= 16,
            bytes.len() <= width,
            all == zero_padded(bytes@, width as int),
            value == be_value(all.take(i as int)),
            0 <= value < pow256(i as nat),
        decreases width - i,
    {
        let byte: u8 = if i < bytes.len() {
            bytes[i]
        } else {
            0
        };
        proof {
            lemma_pow256(i as nat);
            assert(all.take(i + 1).drop_last() =~= all.take(i as int));
        }
        value = value * 256 + byte as u128;
        i = i + 1;
    }
    proof {
        assert(all.take(width as int) =~= all);
        lemma_pow256(width as nat);
    }
    value
}

/// `256^n`.
pub open spec fn pow256(n: nat) -> nat
    decreases n,
{
    if n == 0 {
        1
    } else {
        256 * pow256((n - 1) as nat)
    }
}

pub proof fn lemma_pow256_pos(n: nat)
    ensures
        pow256(n) > 0,
        n > 0 ==> pow256(n) / 256 == pow256((n - 1) as nat),
    decreases n,
{
    if n > 0 {
        lemma_pow256_pos((n - 1) as nat);
    }
}

proof fn lemma_pow256(n: nat)
    requires
        n <= 16,
    ensures
        n < 16 ==> pow256(n) * 256 <= 0x1_0000_0000_0000_0000_0000_0000_0000_0000,
        pow256(n + 1) == 256 * pow256(n),
        n <= 4 ==> pow256(n) <= 0x1_0000_0000,
        pow256(n) <= 0x1_0000_0000_0000_0000_0000_0000_0000_0000,
{
    reveal_with_fuel(pow256, 18);
}

/// The bytes of an option: its code and the length of its payload, two bytes each with the higher
/// one first, and the payload.
pub open spec fn spelled(t: Tlv) -> Seq<u8> {
    seq![
        (t.code / 256) as u8,
        (t.code % 256) as u8,
        (t.data.len() / 256) as u8,
        (t.data.len() % 256) as u8,
    ] + t.data
}

/// The bytes of options, one after the other.
pub open spec fn all_spelled(opts: Seq<Tlv>) -> Seq<u8>
    decreases opts.len(),
{
    if opts.len() == 0 {
        Seq::empty()
    } else {
        spelled(opts[0]) + all_spelled(opts.drop_first())
    }
}

/// An option at the front of some bytes is read as what it is, and what follows it as if it stood
/// alone.
pub proof fn lemma_option_reads_back(t: Tlv, rest: Seq<u8>)
    requires
        t.data.len() <= 0xffff,
    ensures
        options(spelled(t) + rest) == seq![t] + options(rest),
        leftover(spelled(t) + rest) == leftover(rest),
{
    let bytes = spelled(t) + rest;
    let len = t.data.len() as int;
    assert(bytes[0] == (t.code / 256) as u8 && bytes[1] == (t.code % 256) as u8);
    assert(bytes[2] == (len / 256) as u8 && bytes[3] == (len % 256) as u8);
    assert(be16(bytes[0], bytes[1]) == t.code);
    assert(be16(bytes[2], bytes[3]) == len);
    assert(bytes.subrange(4, 4 + len) =~= t.data);
    assert(bytes.subrange(4 + len, bytes.len() as int) =~= rest);
}

/// Options are read as what they are, all of them and in their order, with nothing left over.
pub proof fn lemma_options_read_back(opts: Seq<Tlv>)
    requires
        forall|i: int| 0 <= i < opts.len() ==> (#[trigger] opts[i]).data.len() <= 0xffff,
    ensures
        options(all_spelled(opts)) == opts,
        leftover(all_spelled(opts)) == Seq::<u8>::empty(),
    decreases opts.len(),
{
    if opts.len() > 0 {
        let rest = opts.drop_first();
        assert forall|i: int| 0 <= i < rest.len() implies (#[trigger] rest[i]).data.len() <= 0xffff by {
            assert(rest[i] == opts[i + 1]);
        }
        lemma_options_read_back(rest);
        lemma_option_reads_back(opts[0], all_spelled(rest));
        assert(seq![opts[0]] + rest =~= opts);
    } else {
        assert(options(all_spelled(opts)) =~= opts);
    }
}

/// An option whose payload is not all there ends the options.
pub proof fn lemma_cut_option_ends_options(opts: Seq<Tlv>, t: Tlv, missing: int)
    requires
        forall|i: int| 0 <= i < opts.len() ==> (#[trigger] opts[i]).data.len() <= 0xffff,
        0 < t.data.len() <= 0xffff,
        0 < missing <= t.data.len(),
    ensures
        ({
            let cut = spelled(t).take(spelled(t).len() - missing);
            &&& options(all_spelled(opts) + cut) == opts
            &&& leftover(all_spelled(opts) + cut) == cut
        }),
    decreases opts.len(),
{
    let cut = spelled(t).take(spelled(t).len() - missing);
    if opts.len() > 0 {
        let rest = opts.drop_first();
        assert forall|i: int| 0 <= i < rest.len() implies (#[trigger] rest[i]).data.len() <= 0xffff by {
            assert(rest[i] == opts[i + 1]);
        }
        lemma_cut_option_ends_options(rest, t, missing);
        lemma_option_reads_back(opts[0], all_spelled(rest) + cut);
        assert(all_spelled(opts) + cut =~= spelled(opts[0]) + (all_spelled(rest) + cut));
        assert(seq![opts[0]] + rest =~= opts);
    } else {
        assert(all_spelled(opts) + cut =~= cut);
        let len = t.data.len() as int;
        assert(be16(cut[2], cut[3]) == len);
        assert(options(cut) =~= opts);
    }
}

/// `256^n` is `2^(8 * n)`.
pub proof fn lemma_pow256_is_pow2(n: nat)
    ensures
        pow256(n) == vstd::arithmetic::power2::pow2(8 * n),
    decreases n,
{
    vstd::arithmetic::power2::lemma2_to64();
    if n > 0 {
        lemma_pow256_is_pow2((n - 1) as nat);
        vstd::arithmetic::power2::lemma_pow2_adds(8, 8 * (n - 1) as nat);
    }
}

/// Bytes that are those of a number, the higher ones first, spell it.
pub proof fn lemma_bytes_spell_number(bytes: Seq<u8>, v: int)
    requires
        0 <= v < pow256(bytes.len()),
        forall|i: int|
            0 <= i < bytes.len() ==> #[trigger] bytes[i] == v / (pow256(
                (bytes.len() - 1 - i) as nat,
            ) as int) % 256,
    ensures
        be_value(bytes) == v,
    decreases bytes.len(),
{
    let n = bytes.len();
    if n > 0 {
        let front = bytes.drop_last();
        let w = v / 256;
        assert(pow256(0) == 1);
        assert(bytes[n - 1] == v % 256) by {
            assert(v / 1 == v);
        }
        lemma_pow256_pos(n);
        assert forall|i: int| 0 <= i < front.len() implies #[trigger] front[i] == w / (pow256(
            (front.len() - 1 - i) as nat,
        ) as int) % 256 by {
            let m = pow256((n - 2 - i) as nat) as int;
            lemma_pow256_pos((n - 2 - i) as nat);
            assert(bytes[i] == front[i]);
            assert(pow256((n - 1 - i) as nat) == 256 * m);
            vstd::arithmetic::div_mod::lemma_div_denominator(v, 256, m);
        }
        lemma_bytes_spell_number(front, w);
    }
}

/// Padded with zeros at the end, the first bytes of a number whose other bytes are zero spell it.
pub proof fn lemma_first_bytes_spell_number(bytes: Seq<u8>, width: int, v: int)
    requires
        0 <= bytes.len() <= width,
        0 <= v < pow256(width as nat),
        forall|i: int|
            0 <= i < bytes.len() ==> #[trigger] bytes[i] == v / (pow256(
                (width - 1 - i) as nat,
            ) as int) % 256,
        v % (pow256((width - bytes.len()) as nat) as int) == 0,
    ensures
        be_value(zero_padded(bytes, width)) == v,
{
    let all = zero_padded(bytes, width);
    let m = pow256((width - bytes.len()) as nat) as int;
    lemma_pow256_pos((width - bytes.len()) as nat);
    assert forall|i: int| 0 <= i < all.len() implies #[trigger] all[i] == v / (pow256(
        (all.len() - 1 - i) as nat,
    ) as int) % 256 by {
        if i >= bytes.len() {
            let d = (width - 1 - i) as nat;
            let c = (i - bytes.len()) as nat;
            lemma_pow256_pos(d);
            lemma_pow256_pos(c);
            lemma_pow256_adds(c + 1, d);
            let n = pow256(d) as int;
            let k = pow256(c) as int;
            vstd::arithmetic::div_mod::lemma_fundamental_div_mod(v, m);
            let q = v / m;
            assert(v == (q * k * 256) * n) by (nonlinear_arith)
                requires
                    v == m * q,
                    m == (256 * k) * n,
            ;
            vstd::arithmetic::div_mod::lemma_div_by_multiple(q * k * 256, n);
            vstd::arithmetic::div_mod::lemma_mod_multiples_basic(q * k, 256);
        }
    }
    lemma_bytes_spell_number(all, v);
}

proof fn lemma_pow256_adds(a: nat, b: nat)
    ensures
        pow256(a + b) == pow256(a) * pow256(b),
{
    lemma_pow256_is_pow2(a);
    lemma_pow256_is_pow2(b);
    lemma_pow256_is_pow2(a + b);
    vstd::arithmetic::power2::lemma_pow2_adds(8 * a, 8 * b);
}

} // verus!
