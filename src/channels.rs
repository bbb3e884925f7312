//! The 11-bit channel packer: sixteen channel values of 11 bits each, laid
//! out bit-contiguously (least significant bit first) in 22 bytes.
use vstd::arithmetic::div_mod::{lemma_breakdown, lemma_fundamental_div_mod_converse, lemma_small_mod};
use vstd::arithmetic::power2::{lemma2_to64, lemma_pow2_adds, lemma_pow2_pos, pow2};
use vstd::bits::lemma_u32_shl_is_mul;
use vstd::prelude::*;

verus! {

/// Number of channels in an RC channels frame.
pub const NUM_CHANNELS: usize = 16;

/// Size of the packed channel buffer in bytes.
pub const PACKED_CHANNELS_LEN: usize = 22;

/// Largest value an 11-bit channel can hold.
pub const CHANNEL_MAX: u16 = 2047;

/// The number whose little-endian base-256 digits are `s`: byte `j` weighs `2^(8 j)`.
pub open spec fn bytes_value(s: Seq<u8>) -> nat
    decreases s.len(),
{
    if s.len() == 0 {
        0
    } else {
        bytes_value(s.drop_last()) + (s.last() as nat) * pow2(8 * (s.len() - 1) as nat)
    }
}

/// The number whose base-2048 digits are `s`: channel `i` weighs `2^(11 i)`.
///
/// Reading this number's bits from the least significant one upwards gives the
/// channels' bits one after the other, which is the packed layout.
pub open spec fn channels_value(s: Seq<u16>) -> nat
    decreases s.len(),
{
    if s.len() == 0 {
        0
    } else {
        channels_value(s.drop_last()) + (s.last() as nat) * pow2(11 * (s.len() - 1) as nat)
    }
}

/// Every channel fits in 11 bits.
pub open spec fn channels_in_range(s: Seq<u16>) -> bool {
    forall|i: int| 0 <= i < s.len() ==> s[i] <= CHANNEL_MAX
}

/// The packed form of the channels `c`: byte `j` holds bits `8 j` to `8 j + 7`
/// of `channels_value(c)`, so that channel 0 fills bits 0 to 10 of the buffer,
/// channel 1 the next 11 bits, and so on.
pub open spec fn packed_channels(c: Seq<u16>) -> Seq<u8> {
    Seq::new(PACKED_CHANNELS_LEN as nat, |j: int| ((channels_value(c) / pow2(8 * j as nat)) % 256) as u8)
}

/// The channels held in the first 22 bytes of `b`: channel `i` is bits `11 i`
/// to `11 i + 10` of their value.
pub open spec fn unpacked_channels(b: Seq<u8>) -> Seq<u16> {
    Seq::new(
        NUM_CHANNELS as nat,
        |i: int| ((bytes_value(b.take(PACKED_CHANNELS_LEN as int)) / pow2(11 * i as nat)) % 2048) as u16,
    )
}

proof fn lemma_bytes_value_bound(s: Seq<u8>)
    ensures
        bytes_value(s) < pow2(8 * s.len()),
    decreases s.len(),
{
    lemma_pow2_pos(8 * s.len());
    if s.len() > 0 {
        let n = (s.len() - 1) as nat;
        let p = pow2(8 * n);
        lemma_bytes_value_bound(s.drop_last());
        lemma_pow2_adds(8 * n, 8);
        lemma2_to64();
        let x = bytes_value(s.drop_last());
        let l = s.last() as nat;
        assert(x + l * p < 256 * p) by (nonlinear_arith)
            requires
                x < p,
                l <= 255,
        ;
    }
}

proof fn lemma_channels_value_bound(s: Seq<u16>)
    requires
        channels_in_range(s),
    ensures
        channels_value(s) < pow2(11 * s.len()),
    decreases s.len(),
{
    lemma_pow2_pos(11 * s.len());
    if s.len() > 0 {
        let n = (s.len() - 1) as nat;
        let p = pow2(11 * n);
        lemma_channels_value_bound(s.drop_last());
        lemma_pow2_adds(11 * n, 11);
        lemma2_to64();
        let x = channels_value(s.drop_last());
        let l = s.last() as nat;
        assert(x + l * p < 2048 * p) by (nonlinear_arith)
            requires
                x < p,
                l <= 2047,
        ;
    }
}

/// Two byte sequences of the same length with the same value are equal.
proof fn lemma_bytes_value_injective(a: Seq<u8>, b: Seq<u8>)
    requires
        a.len() == b.len(),
        bytes_value(a) == bytes_value(b),
    ensures
        a == b,
    decreases a.len(),
{
    if a.len() > 0 {
        let n = (a.len() - 1) as nat;
        let p = pow2(8 * n);
        lemma_pow2_pos(8 * n);
        lemma_bytes_value_bound(a.drop_last());
        lemma_bytes_value_bound(b.drop_last());
        lemma_fundamental_div_mod_converse(
            bytes_value(a) as int,
            p as int,
            a.last() as int,
            bytes_value(a.drop_last()) as int,
        );
        lemma_fundamental_div_mod_converse(
            bytes_value(b) as int,
            p as int,
            b.last() as int,
            bytes_value(b.drop_last()) as int,
        );
        lemma_bytes_value_injective(a.drop_last(), b.drop_last());
        assert(a =~= a.drop_last().push(a.last()));
        assert(b =~= b.drop_last().push(b.last()));
    } else {
        assert(a =~= b);
    }
}

/// Two channel sequences of the same length, each channel in range, with the
/// same value are equal.
proof fn lemma_channels_value_injective(a: Seq<u16>, b: Seq<u16>)
    requires
        a.len() == b.len(),
        channels_in_range(a),
        channels_in_range(b),
        channels_value(a) == channels_value(b),
    ensures
        a == b,
    decreases a.len(),
{
    if a.len() > 0 {
        let n = (a.len() - 1) as nat;
        let p = pow2(11 * n);
        lemma_pow2_pos(11 * n);
        assert(channels_in_range(a.drop_last()));
        assert(channels_in_range(b.drop_last()));
        lemma_channels_value_bound(a.drop_last());
        lemma_channels_value_bound(b.drop_last());
        lemma_fundamental_div_mod_converse(
            channels_value(a) as int,
            p as int,
            a.last() as int,
            channels_value(a.drop_last()) as int,
        );
        lemma_fundamental_div_mod_converse(
            channels_value(b) as int,
            p as int,
            b.last() as int,
            channels_value(b.drop_last()) as int,
        );
        lemma_channels_value_injective(a.drop_last(), b.drop_last());
        assert(a =~= a.drop_last().push(a.last()));
        assert(b =~= b.drop_last().push(b.last()));
    } else {
        assert(a =~= b);
    }
}

/// The bytes cut from `v`, eight bits at a time, add back up to `v` modulo `2^(8 n)`.
proof fn lemma_bytes_of_value(v: nat, n: nat)
    ensures
        bytes_value(Seq::new(n, |j: int| ((v / pow2(8 * j as nat)) % 256) as u8)) == v % pow2(8 * n),
    decreases n,
{
    let s = Seq::new(n, |j: int| ((v / pow2(8 * j as nat)) % 256) as u8);
    lemma2_to64();
    if n == 0 {
        assert(v % 1 == 0);
    } else {
        let m = (n - 1) as nat;
        let p = pow2(8 * m);
        lemma_pow2_pos(8 * m);
        lemma_bytes_of_value(v, m);
        assert(s.drop_last() =~= Seq::new(m, |j: int| ((v / pow2(8 * j as nat)) % 256) as u8));
        assert(s.last() as nat == (v / p) % 256);
        lemma_breakdown(v as int, p as int, 256);
        lemma_pow2_adds(8 * m, 8);
        assert(8 * m + 8 == 8 * n);
    }
}

/// The channels cut from `v`, eleven bits at a time, add back up to `v` modulo `2^(11 n)`.
proof fn lemma_channels_of_value(v: nat, n: nat)
    ensures
        channels_value(Seq::new(n, |i: int| ((v / pow2(11 * i as nat)) % 2048) as u16)) == v % pow2(
            11 * n,
        ),
    decreases n,
{
    let s = Seq::new(n, |i: int| ((v / pow2(11 * i as nat)) % 2048) as u16);
    lemma2_to64();
    if n == 0 {
        assert(v % 1 == 0);
    } else {
        let m = (n - 1) as nat;
        let p = pow2(11 * m);
        lemma_pow2_pos(11 * m);
        lemma_channels_of_value(v, m);
        assert(s.drop_last() =~= Seq::new(m, |i: int| ((v / pow2(11 * i as nat)) % 2048) as u16));
        assert(s.last() as nat == (v / p) % 2048);
        lemma_breakdown(v as int, p as int, 2048);
        lemma_pow2_adds(11 * m, 11);
        assert(11 * m + 11 == 11 * n);
    }
}

/// Bytes whose value is that of the channels `c` are `packed_channels(c)`.
proof fn lemma_packed_channels_unique(c: Seq<u16>, b: Seq<u8>)
    requires
        c.len() == NUM_CHANNELS,
        channels_in_range(c),
        b.len() == PACKED_CHANNELS_LEN,
        bytes_value(b) == channels_value(c),
    ensures
        b == packed_channels(c),
{
    lemma_channels_value_bound(c);
    lemma_bytes_of_value(channels_value(c), PACKED_CHANNELS_LEN as nat);
    lemma_small_mod(channels_value(c), pow2(8 * PACKED_CHANNELS_LEN as nat));
    lemma_bytes_value_injective(b, packed_channels(c));
}

/// In-range channels whose value is that of the first 22 bytes of `b` are
/// `unpacked_channels(b)`.
proof fn lemma_unpacked_channels_unique(b: Seq<u8>, c: Seq<u16>)
    requires
        b.len() >= PACKED_CHANNELS_LEN,
        c.len() == NUM_CHANNELS,
        channels_in_range(c),
        channels_value(c) == bytes_value(b.take(PACKED_CHANNELS_LEN as int)),
    ensures
        c == unpacked_channels(b),
{
    let v = bytes_value(b.take(PACKED_CHANNELS_LEN as int));
    lemma_channels_value_bound(c);
    lemma_channels_of_value(v, NUM_CHANNELS as nat);
    lemma_small_mod(v, pow2(11 * NUM_CHANNELS as nat));
    let u = unpacked_channels(b);
    assert forall|i: int| 0 <= i < u.len() implies u[i] <= CHANNEL_MAX by {
        assert((v / pow2(11 * i as nat)) % 2048 < 2048);
    }
    lemma_channels_value_injective(c, u);
}

/// Unpacking the packed form of in-range channels gives the channels back.
pub proof fn lemma_pack_unpack_round_trip(c: Seq<u16>)
    requires
        c.len() == NUM_CHANNELS,
        channels_in_range(c),
    ensures
        unpacked_channels(packed_channels(c)) == c,
{
    let b = packed_channels(c);
    lemma_channels_value_bound(c);
    lemma_bytes_of_value(channels_value(c), PACKED_CHANNELS_LEN as nat);
    lemma_small_mod(channels_value(c), pow2(8 * PACKED_CHANNELS_LEN as nat));
    assert(b.take(PACKED_CHANNELS_LEN as int) =~= b);
    lemma_unpacked_channels_unique(b, c);
}

/// Packs sixteen 11-bit channels into 22 bytes; `None` if a channel exceeds 2047.
pub fn pack_channels(channels: &[u16; 16]) -> (r: Option<[u8; 22]>)
    ensures
        r is None <==> !channels_in_range(channels@),
        r matches Some(b) ==> b@ == packed_channels(channels@),
{
    let mut i: usize = 0;
    while i < NUM_CHANNELS
        invariant
            i <= NUM_CHANNELS,
            forall|j: int| 0 <= j < i ==> channels@[j] <= CHANNEL_MAX,
        decreases NUM_CHANNELS - i,
    {
        if channels[i] > CHANNEL_MAX {
            return None;
        }
        i = i + 1;
    }
    let mut buf = [0u8; 22];
    let mut acc: u32 = 0;
    let mut nbits: u32 = 0;
    let mut p: usize = 0;
    i = 0;
    proof {
        lemma2_to64();
        assert(channels@.take(0) =~= Seq::<u16>::empty());
        assert(buf@.take(0) =~= Seq::<u8>::empty());
        assert((1u32 << 0u32) == 1) by (bit_vector);
    }
    while i < NUM_CHANNELS
        invariant
            i <= NUM_CHANNELS,
            p <= PACKED_CHANNELS_LEN,
            nbits < 8,
            11 * i == 8 * p + nbits,
            acc < (1u32 << nbits),
            channels_in_range(channels@),
            channels_value(channels@.take(i as int)) == bytes_value(buf@.take(p as int)) + (acc as nat)
                * pow2(8 * p as nat),
        decreases NUM_CHANNELS - i,
    {
        let ch = channels[i] as u32;
        proof {
            let t = channels@.take(i as int + 1);
            assert(t.drop_last() =~= channels@.take(i as int));
            assert(ch <= 2047);
            lemma_u32_pow2_bound(nbits);
            assert(nbits < 8 ==> (1u32 << nbits) <= 128) by (bit_vector);
            assert(ch * pow2(nbits as nat) <= 2047 * 128) by (nonlinear_arith)
                requires
                    ch <= 2047,
                    pow2(nbits as nat) <= 128,
            ;
            lemma_u32_shl_is_mul(ch, nbits);
            assert(acc < (1u32 << nbits) && nbits < 8 && ch <= 2047 ==> (acc | (ch << nbits))
                == acc + (ch << nbits) && (acc | (ch << nbits)) < (1u32 << ((nbits + 11) as u32)))
                by (bit_vector);
            lemma_pow2_adds(8 * p as nat, nbits as nat);
            let b = bytes_value(buf@.take(p as int));
            let q = pow2(8 * p as nat);
            let r = pow2(nbits as nat);
            assert(b + (acc as nat) * q + (ch as nat) * (q * r) == b + (acc + ch * r) * q)
                by (nonlinear_arith);
        }
        acc = acc | (ch << nbits);
        nbits = nbits + 11;
        while nbits >= 8
            invariant
                i < NUM_CHANNELS,
                nbits < 19,
                11 * (i + 1) == 8 * p + nbits,
                acc < (1u32 << nbits),
                channels_value(channels@.take(i + 1)) == bytes_value(buf@.take(p as int)) + (
                acc as nat) * pow2(8 * p as nat),
            decreases nbits,
        {
            proof {
                lemma2_to64();
                assert((acc & 0xff) == acc % 256 && (acc >> 8) == acc / 256) by (bit_vector);
                assert(acc < (1u32 << nbits) && 8 <= nbits && nbits < 19 ==> (acc >> 8) < (1u32
                    << ((nbits - 8) as u32))) by (bit_vector);
                let q = pow2(8 * p as nat);
                lemma_pow2_adds(8 * p as nat, 8);
                lemma_fundamental_div_mod_converse(acc as int, 256, (acc / 256) as int, (acc % 256) as int);
                assert((acc as nat) * q == (acc % 256) as nat * q + (acc / 256) as nat * (q * 256))
                    by (nonlinear_arith)
                    requires
                        acc == (acc / 256) * 256 + acc % 256,
                ;
            }
            let byte = (acc & 0xff) as u8;
            let ghost before = buf@;
            buf[p] = byte;
            proof {
                let t = buf@.take(p as int + 1);
                assert(t.drop_last() =~= before.take(p as int));
                assert(t.last() == byte);
                assert(byte as nat == (acc % 256) as nat);
                assert(bytes_value(t) == bytes_value(before.take(p as int)) + (acc % 256) as nat * pow2(
                    8 * p as nat));
            }
            acc = acc >> 8;
            nbits = nbits - 8;
            p = p + 1;
        }
        i = i + 1;
    }
    proof {
        assert(channels@.take(16) =~= channels@);
        assert(buf@.take(22) =~= buf@);
        assert(acc < (1u32 << 0u32) ==> acc == 0) by (bit_vector);
        lemma_packed_channels_unique(channels@, buf@);
    }
    Some(buf)
}

/// Unpacks sixteen 11-bit channels from the first 22 bytes of `data`; `None`
/// if fewer than 22 bytes are given.
pub fn unpack_channels(data: &[u8]) -> (r: Option<[u16; 16]>)
    ensures
        r is None <==> data@.len() < PACKED_CHANNELS_LEN,
        r matches Some(c) ==> c@ == unpacked_channels(data@) && channels_in_range(c@),
{
    if data.len() < PACKED_CHANNELS_LEN {
        return None;
    }
    let mut out = [0u16; 16];
    let mut acc: u32 = 0;
    let mut nbits: u32 = 0;
    let mut p: usize = 0;
    let mut i: usize = 0;
    proof {
        assert(out@.take(0) =~= Seq::<u16>::empty());
        assert(data@.take(0) =~= Seq::<u8>::empty());
        assert((1u32 << 0u32) == 1) by (bit_vector);
    }
    while i < NUM_CHANNELS
        invariant
            data@.len() >= PACKED_CHANNELS_LEN,
            i <= NUM_CHANNELS,
            nbits < 8,
            8 * p == 11 * i + nbits,
            acc < (1u32 << nbits),
            channels_in_range(out@.take(i as int)),
            bytes_value(data@.take(p as int)) == channels_value(out@.take(i as int)) + (acc as nat)
                * pow2(11 * i as nat),
        decreases NUM_CHANNELS - i,
    {
        while nbits < 11
            invariant
                data@.len() >= PACKED_CHANNELS_LEN,
                i < NUM_CHANNELS,
                nbits < 19,
                8 * p == 11 * i + nbits,
                acc < (1u32 << nbits),
                bytes_value(data@.take(p as int)) == channels_value(out@.take(i as int)) + (
                acc as nat) * pow2(11 * i as nat),
            decreases 19 - nbits,
        {
            let b = data[p] as u32;
            proof {
                lemma2_to64();
                let t = data@.take(p as int + 1);
                assert(t.drop_last() =~= data@.take(p as int));
                lemma_u32_pow2_bound(nbits);
                assert(nbits < 11 ==> (1u32 << nbits) <= 1024) by (bit_vector);
                assert(b * pow2(nbits as nat) <= 255 * 1024) by (nonlinear_arith)
                    requires
                        b <= 255,
                        pow2(nbits as nat) <= 1024,
                ;
                lemma_u32_shl_is_mul(b, nbits);
                assert(acc < (1u32 << nbits) && nbits < 11 && b <= 255 ==> (acc | (b << nbits))
                    == acc + (b << nbits) && (acc | (b << nbits)) < (1u32 << ((nbits + 8) as u32)))
                    by (bit_vector);
                lemma_pow2_adds(11 * i as nat, nbits as nat);
                let c = channels_value(out@.take(i as int));
                let q = pow2(11 * i as nat);
                let r = pow2(nbits as nat);
                assert(c + (acc as nat) * q + (b as nat) * (q * r) == c + (acc + b * r) * q)
                    by (nonlinear_arith);
            }
            acc = acc | (b << nbits);
            nbits = nbits + 8;
            p = p + 1;
        }
        proof {
            lemma2_to64();
            assert((acc & 0x7ff) == acc % 2048 && (acc >> 11) == acc / 2048) by (bit_vector);
            assert(acc < (1u32 << nbits) && 11 <= nbits && nbits < 19 ==> (acc >> 11) < (1u32
                << ((nbits - 11) as u32))) by (bit_vector);
            let q = pow2(11 * i as nat);
            lemma_pow2_adds(11 * i as nat, 11);
            lemma_fundamental_div_mod_converse(acc as int, 2048, (acc / 2048) as int, (acc % 2048) as int);
            assert((acc as nat) * q == (acc % 2048) as nat * q + (acc / 2048) as nat * (q * 2048))
                by (nonlinear_arith)
                requires
                    acc == (acc / 2048) * 2048 + acc % 2048,
            ;
        }
        let ch = (acc & 0x7ff) as u16;
        let ghost before = out@;
        out[i] = ch;
        proof {
            let t = out@.take(i as int + 1);
            assert(t.drop_last() =~= before.take(i as int));
            assert(t.last() == ch);
            assert(ch <= CHANNEL_MAX);
            assert(forall|j: int| 0 <= j < i ==> t[j] == before.take(i as int)[j]);
            assert(channels_in_range(t));
            assert(channels_value(t) == channels_value(before.take(i as int)) + (acc % 2048) as nat
                * pow2(11 * i as nat));
        }
        acc = acc >> 11;
        nbits = nbits - 11;
        i = i + 1;
    }
    proof {
        assert(out@.take(16) =~= out@);
        assert(acc < (1u32 << 0u32) ==> acc == 0) by (bit_vector);
        lemma_unpacked_channels_unique(data@, out@);
    }
    Some(out)
}

/// `2^n` for `n < 32` fits a `u32` and is `1 << n`.
proof fn lemma_u32_pow2_bound(n: u32)
    requires
        n < 32,
    ensures
        (1u32 << n) == pow2(n as nat),
{
    lemma2_to64();
    vstd::bits::lemma_u32_pow2_no_overflow(n as nat);
    lemma_u32_shl_is_mul(1, n);
}

} // verus!
