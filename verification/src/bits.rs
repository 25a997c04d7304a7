//! Big-endian bit strings and the writer that packs them into bytes.
use vstd::arithmetic::power2::*;
use vstd::prelude::*;

verus! {

/// The `n` low bits of `v`, most significant first.
pub open spec fn uint_bits(v: nat, n: nat) -> Seq<bool>
    decreases n,
{
    if n == 0 {
        Seq::empty()
    } else {
        uint_bits(v / 2, (n - 1) as nat).push(v % 2 == 1)
    }
}

/// The number that a bit string spells, most significant bit first.
pub open spec fn bits_uint(b: Seq<bool>) -> nat
    decreases b.len(),
{
    if b.len() == 0 {
        0
    } else {
        2 * bits_uint(b.drop_last()) + if b.last() {
            1nat
        } else {
            0nat
        }
    }
}

/// `n` zero bits.
pub open spec fn zero_bits(n: nat) -> Seq<bool> {
    Seq::new(n, |i: int| false)
}

/// The bits of a byte string, in order.
pub open spec fn byte_bits(bytes: Seq<u8>) -> Seq<bool>
    decreases bytes.len(),
{
    if bytes.len() == 0 {
        Seq::empty()
    } else {
        byte_bits(bytes.drop_last()) + uint_bits(bytes.last() as nat, 8)
    }
}

/// The byte string whose bits are `b`, for a whole number of bytes.
pub open spec fn pack_bits(b: Seq<bool>) -> Seq<u8>
    decreases b.len(),
{
    if b.len() < 8 {
        Seq::empty()
    } else {
        pack_bits(b.take(b.len() - 8)).push(bits_uint(b.skip(b.len() - 8)) as u8)
    }
}

/// How many zero bits complete the last byte of a string of `len` bits.
pub open spec fn pad_len(len: nat) -> nat {
    ((8 - len % 8) % 8) as nat
}

pub proof fn lemma_uint_bits_len(v: nat, n: nat)
    ensures
        uint_bits(v, n).len() == n,
    decreases n,
{
    if n > 0 {
        lemma_uint_bits_len(v / 2, (n - 1) as nat);
    }
}

/// Reading back `n` written bits gives the number modulo `2^n`.
pub proof fn lemma_bits_uint_of_uint_bits(v: nat, n: nat)
    ensures
        bits_uint(uint_bits(v, n)) == v % pow2(n),
    decreases n,
{
    lemma_pow2_pos(n);
    if n == 0 {
        lemma2_to64();
        assert(uint_bits(v, n).len() == 0);
        assert(v % 1 == 0);
    } else {
        let h = v / 2;
        let m = (n - 1) as nat;
        lemma_bits_uint_of_uint_bits(h, m);
        lemma_pow2_unfold(n);
        lemma_pow2_pos(m);
        assert(uint_bits(v, n).drop_last() =~= uint_bits(h, m));
        let p = pow2(m);
        assert(v % (2 * p) == 2 * (h % p) + v % 2) by (nonlinear_arith)
            requires
                p > 0,
                h == v / 2,
        {
            let q = h / p;
            let r = h % p;
            assert(h == q * p + r);
            assert(v == 2 * h + v % 2);
            assert(v == q * (2 * p) + (2 * r + v % 2));
            assert(0 <= 2 * r + v % 2 < 2 * p);
            vstd::arithmetic::div_mod::lemma_fundamental_div_mod_converse(
                v as int,
                (2 * p) as int,
                q as int,
                (2 * r + v % 2) as int,
            );
        }
    }
}

pub proof fn lemma_zero_bits(n: nat)
    ensures
        uint_bits(0, n) == zero_bits(n),
    decreases n,
{
    if n > 0 {
        lemma_zero_bits((n - 1) as nat);
    }
    assert(uint_bits(0, n) =~= zero_bits(n));
}

/// Only the low `n` bits of a number are written.
pub proof fn lemma_uint_bits_mod(v: nat, w: nat, n: nat)
    requires
        v % pow2(n) == w % pow2(n),
    ensures
        uint_bits(v, n) == uint_bits(w, n),
    decreases n,
{
    if n > 0 {
        let m = (n - 1) as nat;
        lemma_pow2_unfold(n);
        lemma_pow2_pos(m);
        lemma_bits_uint_of_uint_bits(v, n);
        lemma_bits_uint_of_uint_bits(w, n);
        lemma_bits_uint_of_uint_bits(v / 2, m);
        lemma_bits_uint_of_uint_bits(w / 2, m);
        assert(uint_bits(v, n).drop_last() =~= uint_bits(v / 2, m));
        assert(uint_bits(w, n).drop_last() =~= uint_bits(w / 2, m));
        lemma_uint_bits_mod(v / 2, w / 2, m);
    }
}

/// A field of bits is its high part followed by its low part.
pub proof fn lemma_uint_bits_split(v: nat, high: nat, low: nat)
    ensures
        uint_bits(v, high + low) == uint_bits(v / pow2(low), high) + uint_bits(v, low),
    decreases low,
{
    lemma_uint_bits_len(v, low);
    if low == 0 {
        lemma2_to64();
        assert(v / 1 == v);
        assert(uint_bits(v, high + low) =~= uint_bits(v / pow2(low), high) + uint_bits(v, low));
    } else {
        let m = (low - 1) as nat;
        lemma_uint_bits_split(v / 2, high, m);
        lemma_pow2_unfold(low);
        lemma_pow2_pos(m);
        vstd::arithmetic::div_mod::lemma_div_denominator(v as int, 2, pow2(m) as int);
        assert(uint_bits(v, high + low) =~= uint_bits(v / pow2(low), high) + uint_bits(v, low));
    }
}

pub proof fn lemma_bits_uint_bound(b: Seq<bool>)
    ensures
        bits_uint(b) < pow2(b.len()),
    decreases b.len(),
{
    if b.len() == 0 {
        lemma2_to64();
    } else {
        lemma_bits_uint_bound(b.drop_last());
        lemma_pow2_unfold(b.len());
    }
}

/// A bit string is determined by its length and the number it spells.
pub proof fn lemma_uint_bits_of_bits_uint(b: Seq<bool>)
    ensures
        uint_bits(bits_uint(b), b.len()) == b,
    decreases b.len(),
{
    if b.len() > 0 {
        let d = b.drop_last();
        lemma_uint_bits_of_bits_uint(d);
        let v = bits_uint(b);
        assert(v / 2 == bits_uint(d));
        assert(v % 2 == if b.last() {
            1nat
        } else {
            0nat
        });
        assert(uint_bits(v, b.len()) =~= b);
    } else {
        assert(uint_bits(bits_uint(b), 0) =~= b);
    }
}

pub proof fn lemma_byte_bits_len(s: Seq<u8>)
    ensures
        byte_bits(s).len() == 8 * s.len(),
    decreases s.len(),
{
    if s.len() > 0 {
        lemma_byte_bits_len(s.drop_last());
        lemma_uint_bits_len(s.last() as nat, 8);
    }
}

pub proof fn lemma_byte_bits_push(s: Seq<u8>, b: u8)
    ensures
        byte_bits(s.push(b)) == byte_bits(s) + uint_bits(b as nat, 8),
{
    assert(s.push(b).drop_last() =~= s);
}

pub proof fn lemma_byte_bits_add(a: Seq<u8>, b: Seq<u8>)
    ensures
        byte_bits(a + b) == byte_bits(a) + byte_bits(b),
    decreases b.len(),
{
    if b.len() == 0 {
        assert(a + b =~= a);
        assert(byte_bits(a) + byte_bits(b) =~= byte_bits(a));
    } else {
        lemma_byte_bits_add(a, b.drop_last());
        assert((a + b).drop_last() =~= a + b.drop_last());
        assert(byte_bits(a + b) =~= byte_bits(a) + byte_bits(b));
    }
}

/// Bytes and whole-byte bit strings correspond one to one.
pub proof fn lemma_pack_byte_bits(s: Seq<u8>)
    ensures
        pack_bits(byte_bits(s)) == s,
    decreases s.len(),
{
    lemma_byte_bits_len(s);
    if s.len() > 0 {
        let d = s.drop_last();
        lemma_pack_byte_bits(d);
        lemma_byte_bits_len(d);
        let b = byte_bits(s);
        let last = uint_bits(s.last() as nat, 8);
        lemma_uint_bits_len(s.last() as nat, 8);
        assert(b.take(b.len() - 8) =~= byte_bits(d));
        assert(b.skip(b.len() - 8) =~= last);
        lemma_bits_uint_of_uint_bits(s.last() as nat, 8);
        lemma2_to64();
        assert(pack_bits(b) =~= s);
    } else {
        assert(pack_bits(byte_bits(s)) =~= s);
    }
}

/// See [`lemma_pack_byte_bits`].
pub proof fn lemma_byte_bits_pack(b: Seq<bool>)
    requires
        b.len() % 8 == 0,
    ensures
        byte_bits(pack_bits(b)) == b,
        8 * pack_bits(b).len() == b.len(),
    decreases b.len(),
{
    if b.len() >= 8 {
        let head = b.take(b.len() - 8);
        let tail = b.skip(b.len() - 8);
        lemma_byte_bits_pack(head);
        lemma_bits_uint_bound(tail);
        lemma2_to64();
        lemma_byte_bits_push(pack_bits(head), bits_uint(tail) as u8);
        lemma_uint_bits_of_bits_uint(tail);
        assert(byte_bits(pack_bits(b)) =~= b);
    } else {
        assert(byte_bits(pack_bits(b)) =~= b);
    }
}

/// Whole-byte bit strings are packed one after the other.
pub proof fn lemma_pack_add(a: Seq<bool>, b: Seq<bool>)
    requires
        a.len() % 8 == 0,
        b.len() % 8 == 0,
    ensures
        pack_bits(a + b) == pack_bits(a) + pack_bits(b),
{
    lemma_byte_bits_pack(a);
    lemma_byte_bits_pack(b);
    lemma_byte_bits_add(pack_bits(a), pack_bits(b));
    lemma_pack_byte_bits(pack_bits(a) + pack_bits(b));
}

/// The first byte of a byte string gives its first eight bits.
pub proof fn lemma_byte_bits_first(s: Seq<u8>)
    requires
        s.len() > 0,
    ensures
        byte_bits(s) == uint_bits(s[0] as nat, 8) + byte_bits(s.skip(1)),
{
    let first = seq![s[0]];
    assert(s =~= first + s.skip(1));
    lemma_byte_bits_add(first, s.skip(1));
    assert(first =~= Seq::<u8>::empty().push(s[0]));
    lemma_byte_bits_push(Seq::empty(), s[0]);
    assert(byte_bits(Seq::<u8>::empty()) + uint_bits(s[0] as nat, 8) =~= uint_bits(
        s[0] as nat,
        8,
    ));
}

/// The bits of a number made of a higher part and a last byte.
pub proof fn lemma_uint_bits_append_byte(v: nat, n: nat, b: u8)
    ensures
        uint_bits(256 * v + b as nat, n + 8) == uint_bits(v, n) + uint_bits(b as nat, 8),
{
    let w = 256 * v + b as nat;
    lemma2_to64();
    lemma_uint_bits_split(w, n, 8);
    assert(w / 256 == v);
    assert(w % 256 == b as nat % 256);
    lemma_uint_bits_mod(w, b as nat, 8);
}

/// The bits of four bytes are those of the number that they spell.
pub proof fn lemma_byte_bits_four(a: u8, b: u8, c: u8, d: u8)
    ensures
        byte_bits(seq![a, b, c, d]) == uint_bits(
            256 * (256 * (256 * (a as nat) + b as nat) + c as nat) + d as nat,
            32,
        ),
{
    let s1 = Seq::<u8>::empty().push(a);
    let s2 = s1.push(b);
    let s3 = s2.push(c);
    let s4 = s3.push(d);
    assert(seq![a, b, c, d] =~= s4);
    lemma_byte_bits_push(Seq::empty(), a);
    lemma_byte_bits_push(s1, b);
    lemma_byte_bits_push(s2, c);
    lemma_byte_bits_push(s3, d);
    assert(byte_bits(Seq::<u8>::empty()) + uint_bits(a as nat, 8) =~= uint_bits(a as nat, 8));
    lemma_uint_bits_append_byte(a as nat, 8, b);
    lemma_uint_bits_append_byte(256 * (a as nat) + b as nat, 16, c);
    lemma_uint_bits_append_byte(256 * (256 * (a as nat) + b as nat) + c as nat, 24, d);
}

/// Writes a bit string most significant bit first and packs it into bytes.
///
/// The view of a writer is the string of all bits written so far.
pub struct BitWriter {
    buf: Vec<u8>,
    current: u8,
    bit_pos: u8,
}

impl View for BitWriter {
    type V = Seq<bool>;

    closed spec fn view(&self) -> Seq<bool> {
        byte_bits(self.buf@) + uint_bits(self.current as nat, self.bit_pos as nat)
    }
}

impl BitWriter {
    /// Fewer than eight bits wait for the rest of their byte.
    pub closed spec fn wf(&self) -> bool {
        &&& self.bit_pos < 8
        &&& self.current < pow2(self.bit_pos as nat)
    }

    /// A writer that has written nothing.
    pub fn new() -> (w: Self)
        ensures
            w.wf(),
            w@ == Seq::<bool>::empty(),
    {
        let w = Self { buf: Vec::with_capacity(65536), current: 0, bit_pos: 0 };
        proof {
            lemma2_to64();
            assert(w@ =~= Seq::<bool>::empty());
        }
        w
    }

    fn write_bit(&mut self, bit: bool)
        requires
            old(self).wf(),
        ensures
            final(self).wf(),
            final(self)@ == old(self)@.push(bit),
    {
        proof {
            lemma2_to64();
            let c = self.current as nat;
            let n = self.bit_pos as nat;
            lemma_pow2_unfold(n + 1);
            lemma_pow2_strictly_increases(n, 8);
            assert((2 * c + 1) / 2 == c && (2 * c) / 2 == c);
            lemma_uint_bits_len(c, n);
        }
        let ghost c = self.current as nat;
        let ghost n = self.bit_pos as nat;
        self.current = self.current * 2 + if bit {
            1
        } else {
            0
        };
        self.bit_pos = self.bit_pos + 1;
        proof {
            assert(uint_bits(self.current as nat, n + 1) =~= uint_bits(c, n).push(bit));
        }
        if self.bit_pos == 8 {
            proof {
                lemma_byte_bits_push(self.buf@, self.current);
                assert(old(self)@.push(bit) =~= byte_bits(self.buf@) + uint_bits(
                    self.current as nat,
                    8,
                ));
            }
            self.buf.push(self.current);
            self.current = 0;
            self.bit_pos = 0;
            assert(self@ =~= byte_bits(self.buf@));
        } else {
            proof {
                if n + 1 < 8 {
                    lemma_pow2_unfold(n + 1);
                }
            }
            assert(self@ =~= old(self)@.push(bit));
        }
    }

    /// Writes the low `count` bits of `val`, most significant first.
    pub fn write_bits(&mut self, val: u64, count: u8)
        requires
            old(self).wf(),
            count <= 64,
        ensures
            final(self).wf(),
            final(self)@ == old(self)@ + uint_bits(val as nat, count as nat),
    {
        let mut left: u8 = count;
        proof {
            lemma_uint_bits_len(val as nat / pow2(count as nat), 0);
            assert(self@ =~= old(self)@ + uint_bits(val as nat / pow2(count as nat), 0));
        }
        while left > 0
            invariant
                left <= count <= 64,
                self.wf(),
                self@ == old(self)@ + uint_bits(
                    val as nat / pow2(left as nat),
                    (count - left) as nat,
                ),
            decreases left,
        {
            left = left - 1;
            let bit: bool = (val >> (left as u64)) % 2 == 1;
            proof {
                vstd::bits::lemma_u64_shr_is_div(val, left as u64);
                lemma_pow2_unfold((left + 1) as nat);
                lemma_pow2_pos(left as nat);
                let p = pow2(left as nat);
                assert(val as nat / (2 * p) == (val as nat / p) / 2) by {
                    vstd::arithmetic::div_mod::lemma_div_denominator(val as int, p as int, 2);
                    assert(p * 2 == 2 * p);
                }
                assert(uint_bits(val as nat / p, (count - left) as nat) =~= uint_bits(
                    val as nat / (2 * p),
                    (count - left - 1) as nat,
                ).push(bit));
            }
            let ghost before = self@;
            self.write_bit(bit);
            assert(self@ =~= old(self)@ + uint_bits(
                val as nat / pow2(left as nat),
                (count - left) as nat,
            ));
        }
        proof {
            lemma2_to64();
            assert(val as nat / 1 == val as nat);
        }
    }

    /// Unary code: `count` zeros followed by a one.
    pub fn write_unary(&mut self, count: u32)
        requires
            old(self).wf(),
        ensures
            final(self).wf(),
            final(self)@ == old(self)@ + zero_bits(count as nat).push(true),
    {
        let mut i: u32 = 0;
        assert(self@ =~= old(self)@ + zero_bits(0));
        while i < count
            invariant
                i <= count,
                self.wf(),
                self@ == old(self)@ + zero_bits(i as nat),
            decreases count - i,
        {
            self.write_bit(false);
            i = i + 1;
            assert(self@ =~= old(self)@ + zero_bits(i as nat));
        }
        self.write_bit(true);
        assert(self@ =~= old(self)@ + zero_bits(count as nat).push(true));
    }

    /// Pads with zeros to the next byte boundary.
    pub fn byte_align(&mut self)
        requires
            old(self).wf(),
        ensures
            final(self).wf(),
            final(self)@ == old(self)@ + zero_bits(pad_len(old(self)@.len())),
            final(self)@.len() % 8 == 0,
    {
        proof {
            self.lemma_len();
        }
        let ghost start = self@;
        let mut written: u8 = 0;
        assert(self@ =~= old(self)@ + zero_bits(0));
        while self.bit_pos > 0
            invariant
                self.wf(),
                written < 8,
                self@.len() % 8 == self.bit_pos,
                start == old(self)@,
                self@ == start + zero_bits(written as nat),
                start.len() % 8 == 0 ==> self.bit_pos == 0,
                self.bit_pos > 0 ==> start.len() % 8 + written == self.bit_pos,
                self.bit_pos == 0 ==> written == pad_len(start.len()),
            decreases (if self.bit_pos > 0 { 8 - self.bit_pos } else { 0 }),
        {
            self.write_bit(false);
            written = written + 1;
            proof {
                self.lemma_len();
            }
            assert(self@ =~= start + zero_bits(written as nat));
        }
    }

    proof fn lemma_len(&self)
        requires
            self.wf(),
        ensures
            self@.len() == 8 * self.buf@.len() + self.bit_pos,
            self@.len() % 8 == self.bit_pos,
    {
        lemma_byte_bits_len(self.buf@);
        lemma_uint_bits_len(self.current as nat, self.bit_pos as nat);
    }

    /// The completed bytes so far, without any partial byte.
    pub fn bytes(&self) -> (r: &[u8])
        requires
            self.wf(),
        ensures
            byte_bits(r@) == self@.take(self@.len() - self@.len() % 8),
    {
        proof {
            self.lemma_len();
            lemma_byte_bits_len(self.buf@);
            assert(self@.take(self@.len() - self@.len() % 8) =~= byte_bits(self.buf@));
        }
        self.buf.as_slice()
    }

    /// All bytes, the last one padded with zeros.
    pub fn into_bytes(self) -> (r: Vec<u8>)
        requires
            self.wf(),
        ensures
            byte_bits(r@) == self@ + zero_bits(pad_len(self@.len())),
    {
        let mut w = self;
        w.byte_align();
        proof {
            w.lemma_len();
            assert(w@ =~= byte_bits(w.buf@));
        }
        w.buf
    }
}

} // verus!
