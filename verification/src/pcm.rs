//! Little-endian bytes and 16-bit samples.
use vstd::prelude::*;

verus! {

/// The `n` low bytes of a number, least significant first.
pub open spec fn le_bytes(v: nat, n: nat) -> Seq<u8>
    decreases n,
{
    if n == 0 {
        Seq::empty()
    } else {
        seq![(v % 256) as u8] + le_bytes(v / 256, (n - 1) as nat)
    }
}

/// Appends the `n` low bytes of a number, least significant first.
pub fn push_le(out: &mut Vec<u8>, v: u32, n: u8)
    ensures
        final(out)@ == old(out)@ + le_bytes(v as nat, n as nat),
    decreases n,
{
    if n > 0 {
        out.push((v % 256) as u8);
        push_le(out, v / 256, n - 1);
        assert(out@ =~= old(out)@ + le_bytes(v as nat, n as nat));
    } else {
        assert(out@ =~= old(out)@ + le_bytes(v as nat, n as nat));
    }
}

pub proof fn lemma_le_bytes_len(v: nat, n: nat)
    ensures
        le_bytes(v, n).len() == n,
    decreases n,
{
    if n > 0 {
        lemma_le_bytes_len(v / 256, (n - 1) as nat);
    }
}

/// Appends some bytes.
pub fn push_bytes(out: &mut Vec<u8>, bytes: &[u8])
    ensures
        final(out)@ == old(out)@ + bytes@,
{
    let mut i: usize = 0;
    assert(out@ =~= old(out)@ + bytes@.take(0));
    while i < bytes.len()
        invariant
            i <= bytes.len(),
            out@ == old(out)@ + bytes@.take(i as int),
        decreases bytes.len() - i,
    {
        out.push(bytes[i]);
        i = i + 1;
        assert(out@ =~= old(out)@ + bytes@.take(i as int));
    }
    assert(bytes@.take(bytes@.len() as int) =~= bytes@);
}

/// A copy of some bytes.
pub fn copy_bytes(bytes: &[u8]) -> (r: Vec<u8>)
    ensures
        r@ == bytes@,
{
    let mut r: Vec<u8> = Vec::new();
    push_bytes(&mut r, bytes);
    assert(r@ =~= bytes@);
    r
}

/// The signed 16-bit sample that two bytes spell, low byte first.
pub open spec fn sample16(low: u8, high: u8) -> i16 {
    (low + 256 * high - if high >= 128 {
        65536int
    } else {
        0int
    }) as i16
}

/// See [`sample16`].
pub fn sample_of(low: u8, high: u8) -> (s: i16)
    ensures
        s == sample16(low, high),
{
    let u: i32 = low as i32 + 256 * (high as i32);
    if high >= 128 {
        (u - 65536) as i16
    } else {
        u as i16
    }
}

/// The 16-bit samples of a byte string; an odd byte at the end is dropped.
pub open spec fn samples16(data: Seq<u8>) -> Seq<i16> {
    Seq::new(data.len() / 2, |i: int| sample16(data[2 * i], data[2 * i + 1]))
}

/// How far a sample is from silence.
pub open spec fn magnitude(s: i16) -> nat {
    if s < 0 {
        (-s) as nat
    } else {
        s as nat
    }
}

/// See [`samples16`].
pub fn samples_of(data: &[u8]) -> (r: Vec<i16>)
    ensures
        r@ == samples16(data@),
{
    let n: usize = data.len() / 2;
    let mut r: Vec<i16> = Vec::new();
    let mut i: usize = 0;
    while i < n
        invariant
            i <= n,
            n == data.len() / 2,
            r@ == samples16(data@).take(i as int),
        decreases n - i,
    {
        r.push(sample_of(data[2 * i], data[2 * i + 1]));
        i = i + 1;
        assert(r@ =~= samples16(data@).take(i as int));
    }
    assert(r@ =~= samples16(data@));
    r
}

/// The two bytes of a 16-bit sample, low byte first.
pub open spec fn sample_bytes(s: i16) -> Seq<u8> {
    le_bytes(
        (if s < 0 {
            s + 65536
        } else {
            s as int
        }) as nat,
        2,
    )
}

/// The bytes of 16-bit samples, one after the other.
pub open spec fn bytes16(s: Seq<i16>) -> Seq<u8>
    decreases s.len(),
{
    if s.len() == 0 {
        Seq::empty()
    } else {
        bytes16(s.drop_last()) + sample_bytes(s.last())
    }
}

/// Appends the two bytes of a sample.
pub fn push_sample(out: &mut Vec<u8>, s: i16)
    ensures
        final(out)@ == old(out)@ + sample_bytes(s),
{
    let u: u32 = if s < 0 {
        (s as i32 + 65536) as u32
    } else {
        s as u32
    };
    push_le(out, u, 2);
}

/// The bytes of some samples; see [`bytes16`].
pub fn bytes_of(samples: &[i16]) -> (r: Vec<u8>)
    ensures
        r@ == bytes16(samples@),
{
    let mut r: Vec<u8> = Vec::new();
    let mut i: usize = 0;
    assert(samples@.take(0) =~= Seq::empty());
    while i < samples.len()
        invariant
            i <= samples.len(),
            r@ == bytes16(samples@.take(i as int)),
        decreases samples.len() - i,
    {
        push_sample(&mut r, samples[i]);
        i = i + 1;
        assert(samples@.take(i as int).drop_last() =~= samples@.take(i - 1));
    }
    assert(samples@.take(samples@.len() as int) =~= samples@);
    r
}

pub proof fn lemma_bytes16_len(s: Seq<i16>)
    ensures
        bytes16(s).len() == 2 * s.len(),
    decreases s.len(),
{
    if s.len() > 0 {
        lemma_bytes16_len(s.drop_last());
        lemma_le_bytes_len(
            (if s.last() < 0 {
                s.last() + 65536
            } else {
                s.last() as int
            }) as nat,
            2,
        );
    }
}

proof fn lemma_sample_bytes(s: i16)
    ensures
        sample_bytes(s).len() == 2,
        sample16(sample_bytes(s)[0], sample_bytes(s)[1]) == s,
{
    reveal_with_fuel(le_bytes, 3);
}

/// Samples survive the way through their bytes.
pub proof fn samples_of_bytes(s: Seq<i16>)
    ensures
        samples16(bytes16(s)) == s,
    decreases s.len(),
{
    lemma_bytes16_len(s);
    if s.len() > 0 {
        let t = s.drop_last();
        samples_of_bytes(t);
        lemma_bytes16_len(t);
        lemma_sample_bytes(s.last());
        assert forall|i: int| 0 <= i < s.len() implies samples16(bytes16(s))[i] == s[i] by {
            if i < t.len() {
                assert(samples16(bytes16(t))[i] == t[i]);
            }
        }
    }
    assert(samples16(bytes16(s)) =~= s);
}

/// What a reader of little-endian numbers makes of some bytes: each byte counts 256
/// times as much as the one before it.
pub open spec fn le_value(bytes: Seq<u8>) -> nat
    decreases bytes.len(),
{
    if bytes.len() == 0 {
        0
    } else {
        bytes[0] as nat + 256 * le_value(bytes.skip(1))
    }
}

/// Two and four bytes, written out.
pub proof fn le_value_of_fields(bytes: Seq<u8>)
    ensures
        bytes.len() == 2 ==> le_value(bytes) == bytes[0] + 256 * bytes[1],
        bytes.len() == 4 ==> le_value(bytes) == bytes[0] + 256 * bytes[1] + 65536 * bytes[2]
            + 16777216 * bytes[3],
{
    reveal_with_fuel(le_value, 5);
}

/// A number reads back from its two or four little-endian bytes where they hold it,
/// else modulo what they hold.
pub proof fn numbers_survive_their_bytes(v: nat)
    ensures
        le_bytes(v, 2).len() == 2,
        le_bytes(v, 4).len() == 4,
        le_value(le_bytes(v, 2)) == v % 65536,
        le_value(le_bytes(v, 4)) == v % 0x1_0000_0000,
        v < 65536 ==> le_bytes(v, 2)[0] + 256 * le_bytes(v, 2)[1] == v,
{
    reveal_with_fuel(le_bytes, 5);
    lemma_le_bytes_len(v, 2);
    lemma_le_bytes_len(v, 4);
    le_value_of_fields(le_bytes(v, 2));
    le_value_of_fields(le_bytes(v, 4));
    let d = v / 256;
    let e = d / 256;
    let f = e / 256;
    assert(le_bytes(v, 4)[0] == v % 256);
    assert(le_bytes(v, 4)[1] == d % 256);
    assert(le_bytes(v, 4)[2] == e % 256);
    assert(le_bytes(v, 4)[3] == f % 256);
    assert(le_bytes(v, 2)[0] == v % 256);
    assert(le_bytes(v, 2)[1] == d % 256);
}

/// A sample is the number that its two bytes spell, low byte first, taken as a
/// two's complement: it differs from the unsigned number by nothing or by 65536.
pub proof fn samples_are_little_endian(low: u8, high: u8)
    ensures
        sample16(low, high) == low + 256 * high || sample16(low, high) == low + 256 * high
            - 65536,
{
}

/// Each sample of a byte string comes from its own two bytes, in their order; only
/// an odd byte at the end is left out.
pub proof fn each_sample_has_its_bytes(data: Seq<u8>, i: int)
    requires
        0 <= 2 * i,
        2 * i + 1 < data.len(),
    ensures
        2 * samples16(data).len() <= data.len() < 2 * samples16(data).len() + 2,
        (samples16(data)[i] - data[2 * i] - 256 * data[2 * i + 1]) % 65536 == 0,
{
    samples_are_little_endian(data[2 * i], data[2 * i + 1]);
}

/// The bytes of samples that were read from whole samples are those bytes.
pub proof fn bytes_of_samples(data: Seq<u8>)
    requires
        data.len() % 2 == 0,
    ensures
        bytes16(samples16(data)) == data,
    decreases data.len(),
{
    let s = samples16(data);
    if data.len() > 0 {
        let n = data.len() as int;
        let t = data.take(n - 2);
        bytes_of_samples(t);
        assert(samples16(t) =~= s.drop_last());
        let low = data[n - 2];
        let high = data[n - 1];
        assert(s.last() == sample16(low, high));
        reveal_with_fuel(le_bytes, 3);
        assert(sample_bytes(s.last()) =~= seq![low, high]);
        assert(bytes16(s) =~= data);
    } else {
        assert(bytes16(s) =~= data);
    }
}

/// The bytes of samples one after the other are the bytes of the first ones and
/// then those of the others.
pub proof fn bytes_of_joined_samples(a: Seq<i16>, b: Seq<i16>)
    ensures
        bytes16(a + b) == bytes16(a) + bytes16(b),
    decreases b.len(),
{
    if b.len() == 0 {
        assert(a + b =~= a);
        assert(bytes16(a) + bytes16(b) =~= bytes16(a));
    } else {
        bytes_of_joined_samples(a, b.drop_last());
        assert((a + b).drop_last() =~= a + b.drop_last());
        assert(bytes16(a + b) =~= bytes16(a) + bytes16(b));
    }
}

/// A sample is as far from silence as its negative, and never nearer than zero.
pub proof fn magnitude_is_absolute(s: i16)
    ensures
        magnitude(s) == s || magnitude(s) == -s,
        magnitude(s) >= s,
        magnitude(s) >= -s,
{
}

} // verus!
