//! Group Code Recording: the 4-to-5 bit code that the drive writes on a track.
//!
//! Every nibble becomes a 5-bit code. The codes are chosen so that the bit stream never holds
//! more than two zeros in a row, which keeps the read clock locked, and never a long run of
//! ones, which keeps the sync mark (a run of `$FF` bytes) recognisable.
use vstd::prelude::*;

verus! {

/// The byte that a sync mark is made of.
pub const SYNC_BYTE: u8 = 0xFF;

/// The 5-bit code of each nibble.
pub const NIBBLE_TO_GCR: [u8; 16] = [
    0b01010, 0b01011, 0b10010, 0b10011, 0b01110, 0b01111, 0b10110, 0b10111, 0b01001, 0b11001,
    0b11010, 0b11011, 0b01101, 0b11101, 0b11110, 0b10101,
];

/// Bit `j` of `v`, bit 0 being the lowest.
pub open spec fn bit(v: u8, j: int) -> bool {
    (v >> (j as u8)) & 1 == 1
}

/// Nibble `k` of a byte string, high nibble first.
pub open spec fn nibble(s: Seq<u8>, k: int) -> u8 {
    if k % 2 == 0 {
        s[k / 2] >> 4
    } else {
        s[k / 2] & 0x0F
    }
}

/// The 5-bit code of nibble `n`.
pub open spec fn gcr_code(n: u8) -> u8 {
    NIBBLE_TO_GCR@[n as int]
}

/// The bits of a byte string, most significant bit first.
pub open spec fn byte_bits(s: Seq<u8>) -> Seq<bool> {
    Seq::new(8 * s.len(), |i: int| bit(s[i / 8], 7 - i % 8))
}

/// The bit stream that stands for a raw byte string: the codes of its nibbles, one after the
/// other, each most significant bit first.
pub open spec fn gcr_bits(s: Seq<u8>) -> Seq<bool> {
    Seq::new(10 * s.len(), |i: int| bit(gcr_code(nibble(s, i / 5)), 4 - i % 5))
}

proof fn lemma_nibble_range(b: u8)
    ensures
        b >> 4 < 16,
        b & 0x0F < 16,
{
    assert(b >> 4 < 16 && b & 0x0F < 16) by (bit_vector);
}

/// Eight 5-bit codes packed into the low 40 bits of a word, first code highest.
spec fn packed(c: Seq<u8>) -> u64 {
    (((((((c[0] as u64) << 5 | c[1] as u64) << 5 | c[2] as u64) << 5 | c[3] as u64) << 5
        | c[4] as u64) << 5 | c[5] as u64) << 5 | c[6] as u64) << 5 | c[7] as u64
}

/// Every bit of a code is found again in the packed word.
proof fn lemma_packed_bit(c: Seq<u8>, i: int)
    requires
        c.len() == 8,
        forall|k: int| 0 <= k < 8 ==> #[trigger] c[k] < 32,
        0 <= i < 40,
    ensures
        (packed(c) >> ((39 - i) as u64)) & 1 == 1 <==> bit(c[i / 5], 4 - i % 5),
{
    let (c0, c1, c2, c3) = (c[0], c[1], c[2], c[3]);
    let (c4, c5, c6, c7) = (c[4], c[5], c[6], c[7]);
    let w = packed(c);
    let q: u64 = (i / 5) as u64;
    let m: u64 = (4 - i % 5) as u64;
    let at: u64 = (39 - i) as u64;
    let code = c[i / 5];
    assert((w >> at) & 1 == ((code as u64) >> m) & 1) by (bit_vector)
        requires
            w == (((((((c0 as u64) << 5 | c1 as u64) << 5 | c2 as u64) << 5 | c3 as u64) << 5
                | c4 as u64) << 5 | c5 as u64) << 5 | c6 as u64) << 5 | c7 as u64,
            c0 < 32 && c1 < 32 && c2 < 32 && c3 < 32 && c4 < 32 && c5 < 32 && c6 < 32 && c7 < 32,
            m < 5 && q < 8,
            at == 35 - 5 * q + m,
            q == 0 ==> code == c0,
            q == 1 ==> code == c1,
            q == 2 ==> code == c2,
            q == 3 ==> code == c3,
            q == 4 ==> code == c4,
            q == 5 ==> code == c5,
            q == 6 ==> code == c6,
            q == 7 ==> code == c7,
    ;
    let n: u8 = (4 - i % 5) as u8;
    assert(((code as u64) >> m) & 1 == ((code >> n) & 1) as u64) by (bit_vector)
        requires
            m == n as u64,
    ;
}


/// The bits of byte `k` of a 40-bit word are bits `39 - 8k` downwards of the word.
proof fn lemma_word_byte_bit(w: u64, b: u8, i: int)
    requires
        0 <= i < 40,
        b == ((w >> ((32 - 8 * (i / 8)) as u64)) & 0xFF) as u8,
    ensures
        bit(b, 7 - i % 8) <==> (w >> ((39 - i) as u64)) & 1 == 1,
{
    let down: u64 = (32 - 8 * (i / 8)) as u64;
    let at: u64 = (39 - i) as u64;
    let m: u8 = (7 - i % 8) as u8;
    assert((b >> m) & 1 == 1 <==> (w >> at) & 1 == 1) by (bit_vector)
        requires
            b == ((w >> down) & 0xFF) as u8,
            down <= 32,
            m < 8,
            at == down + m,
    ;
}

/// The code of a nibble takes five bits.
proof fn lemma_code_range(n: u8)
    requires
        n < 16,
    ensures
        gcr_code(n) < 32,
{
}

/// The code of one nibble.
fn code_of(n: u8) -> (code: u8)
    requires
        n < 16,
    ensures
        code == gcr_code(n),
        code < 32,
{
    proof {
        lemma_code_range(n);
    }
    NIBBLE_TO_GCR[n as usize]
}

/// Encodes four raw bytes into five: the codes of the eight nibbles, packed without gaps.
pub fn encode_4_bytes(input: [u8; 4], output: &mut [u8; 5])
    ensures
        byte_bits(final(output)@) == gcr_bits(input@),
{
    proof {
        lemma_nibble_range(input[0]);
        lemma_nibble_range(input[1]);
        lemma_nibble_range(input[2]);
        lemma_nibble_range(input[3]);
    }
    let c0: u8 = code_of(input[0] >> 4);
    let c1: u8 = code_of(input[0] & 0x0F);
    let c2: u8 = code_of(input[1] >> 4);
    let c3: u8 = code_of(input[1] & 0x0F);
    let c4: u8 = code_of(input[2] >> 4);
    let c5: u8 = code_of(input[2] & 0x0F);
    let c6: u8 = code_of(input[3] >> 4);
    let c7: u8 = code_of(input[3] & 0x0F);
    let bits: u64 = (((((((c0 as u64) << 5 | c1 as u64) << 5 | c2 as u64) << 5 | c3 as u64) << 5
        | c4 as u64) << 5 | c5 as u64) << 5 | c6 as u64) << 5 | c7 as u64;
    output[0] = ((bits >> 32) & 0xFF) as u8;
    output[1] = ((bits >> 24) & 0xFF) as u8;
    output[2] = ((bits >> 16) & 0xFF) as u8;
    output[3] = ((bits >> 8) & 0xFF) as u8;
    output[4] = ((bits >> 0) & 0xFF) as u8;
    proof {
        let c = seq![c0, c1, c2, c3, c4, c5, c6, c7];
        assert(bits == packed(c));
        assert forall|i: int| 0 <= i < 40 implies #[trigger] byte_bits(output@)[i] == gcr_bits(
            input@,
        )[i] by {
            lemma_packed_bit(c, i);
            lemma_word_byte_bit(bits, output@[i / 8], i);
            assert(c[i / 5] == gcr_code(nibble(input@, i / 5)));
        }
        assert(byte_bits(output@) =~= gcr_bits(input@));
    }
}

/// The bits of a concatenation are the concatenated bits.
proof fn lemma_byte_bits_add(a: Seq<u8>, b: Seq<u8>)
    ensures
        byte_bits(a + b) == byte_bits(a) + byte_bits(b),
{
    assert forall|i: int| 0 <= i < 8 * (a.len() + b.len()) implies #[trigger] byte_bits(a + b)[i]
        == (byte_bits(a) + byte_bits(b))[i] by {
        let j = i - 8 * a.len();
        assert(i / 8 == a.len() + j / 8 && i % 8 == j % 8);
    }
    assert(byte_bits(a + b) =~= byte_bits(a) + byte_bits(b));
}

/// The nibbles of a concatenation are the concatenated nibbles.
proof fn lemma_nibble_add(a: Seq<u8>, b: Seq<u8>, k: int)
    requires
        0 <= k < 2 * (a.len() + b.len()),
    ensures
        nibble(a + b, k) == if k < 2 * a.len() {
            nibble(a, k)
        } else {
            nibble(b, k - 2 * a.len())
        },
{
    let j = k - 2 * a.len();
    if j >= 0 {
        assert(k / 2 == a.len() + j / 2 && k % 2 == j % 2);
    }
}

/// The code stream of a concatenation is the concatenated code streams.
proof fn lemma_gcr_bits_add(a: Seq<u8>, b: Seq<u8>)
    ensures
        gcr_bits(a + b) == gcr_bits(a) + gcr_bits(b),
{
    let (whole, parts) = (gcr_bits(a + b), gcr_bits(a) + gcr_bits(b));
    assert forall|i: int| 0 <= i < 10 * (a.len() + b.len()) implies #[trigger] whole[i]
        == parts[i] by {
        lemma_nibble_add(a, b, i / 5);
        let j = i - 10 * a.len();
        if j >= 0 {
            assert(i / 5 == 2 * a.len() + j / 5 && i % 5 == j % 5);
        }
    }
    assert(whole =~= parts);
}

/// The byte that eight bits of a stream make, from bit `at` on, most significant bit first.
pub open spec fn byte_at(bits: Seq<bool>, at: int) -> u8 {
    let w = |i: int, v: int|
        if bits[at + i] {
            v
        } else {
            0
        };
    (w(0, 128) + w(1, 64) + w(2, 32) + w(3, 16) + w(4, 8) + w(5, 4) + w(6, 2) + w(7, 1)) as u8
}

/// The encoded form of a raw byte string whose length is a multiple of four: its code stream cut
/// into bytes.
pub open spec fn gcr_encoded(s: Seq<u8>) -> Seq<u8> {
    Seq::new((s.len() / 4 * 5) as nat, |k: int| byte_at(gcr_bits(s), 8 * k))
}

/// A byte string is its own bits cut into bytes.
proof fn lemma_byte_at(s: Seq<u8>, k: int)
    requires
        0 <= k < s.len(),
    ensures
        byte_at(byte_bits(s), 8 * k) == s[k],
{
    let v = s[k];
    let b = byte_bits(s);
    assert(v == ((v >> 7u8) & 1) * 128 + ((v >> 6u8) & 1) * 64 + ((v >> 5u8) & 1) * 32 + ((v >> 4u8)
        & 1) * 16 + ((v >> 3u8) & 1) * 8 + ((v >> 2u8) & 1) * 4 + ((v >> 1u8) & 1) * 2 + ((v >> 0u8)
        & 1) && (v >> 7u8) & 1 <= 1 && (v >> 6u8) & 1 <= 1 && (v >> 5u8) & 1 <= 1 && (v >> 4u8) & 1
        <= 1 && (v >> 3u8) & 1 <= 1 && (v >> 2u8) & 1 <= 1 && (v >> 1u8) & 1 <= 1 && (v >> 0u8) & 1
        <= 1) by (bit_vector);
    assert(b[8 * k] == bit(v, 7) && b[8 * k + 1] == bit(v, 6) && b[8 * k + 2] == bit(v, 5) && b[8
        * k + 3] == bit(v, 4) && b[8 * k + 4] == bit(v, 3) && b[8 * k + 5] == bit(v, 2) && b[8 * k
        + 6] == bit(v, 1) && b[8 * k + 7] == bit(v, 0));
}

/// Encodes raw bytes, four at a time.
pub fn encode(input: &[u8]) -> (out: Vec<u8>)
    requires
        input@.len() % 4 == 0,
    ensures
        out@ == gcr_encoded(input@),
        byte_bits(out@) == gcr_bits(input@),
{
    let mut out: Vec<u8> = Vec::new();
    let mut buf: [u8; 5] = [0u8; 5];
    let mut at: usize = 0;
    proof {
        assert(byte_bits(out@) =~= gcr_bits(input@.take(0)));
    }
    while at < input.len()
        invariant
            at <= input@.len(),
            at % 4 == 0,
            input@.len() % 4 == 0,
            out@.len() == at / 4 * 5,
            byte_bits(out@) == gcr_bits(input@.take(at as int)),
        decreases input@.len() - at,
    {
        let chunk: [u8; 4] = [input[at], input[at + 1], input[at + 2], input[at + 3]];
        encode_4_bytes(chunk, &mut buf);
        proof {
            lemma_byte_bits_add(out@, buf@);
            lemma_gcr_bits_add(input@.take(at as int), chunk@);
            assert(input@.take(at + 4) =~= input@.take(at as int) + chunk@);
        }
        let ghost before = out@;
        out.push(buf[0]);
        out.push(buf[1]);
        out.push(buf[2]);
        out.push(buf[3]);
        out.push(buf[4]);
        assert(out@ =~= before + buf@);
        at = at + 4;
    }
    assert(input@.take(at as int) =~= input@);
    assert forall|k: int| 0 <= k < out@.len() implies out@[k] == #[trigger] gcr_encoded(
        input@,
    )[k] by {
        lemma_byte_at(out@, k);
    }
    assert(out@ =~= gcr_encoded(input@));
    out
}

/// The bits of a byte put together from bits are those bits.
proof fn lemma_bits_of_byte_at(bits: Seq<bool>, at: int, m: int)
    requires
        0 <= at,
        at + 8 <= bits.len(),
        0 <= m < 8,
    ensures
        bit(byte_at(bits, at), 7 - m) == bits[at + m],
{
    let one = |i: int|
        if bits[at + i] {
            1u8
        } else {
            0u8
        };
    let (b0, b1, b2, b3) = (one(0), one(1), one(2), one(3));
    let (b4, b5, b6, b7) = (one(4), one(5), one(6), one(7));
    let v = byte_at(bits, at);
    let down: u8 = (7 - m) as u8;
    let want = one(m);
    assert((v >> down) & 1 == want) by (bit_vector)
        requires
            v == 128 * b0 + 64 * b1 + 32 * b2 + 16 * b3 + 8 * b4 + 4 * b5 + 2 * b6 + b7,
            b0 <= 1 && b1 <= 1 && b2 <= 1 && b3 <= 1 && b4 <= 1 && b5 <= 1 && b6 <= 1 && b7 <= 1,
            down < 8,
            down == 7 ==> want == b0,
            down == 6 ==> want == b1,
            down == 5 ==> want == b2,
            down == 4 ==> want == b3,
            down == 3 ==> want == b4,
            down == 2 ==> want == b5,
            down == 1 ==> want == b6,
            down == 0 ==> want == b7,
    ;
}

/// The bits of the encoded bytes are the code stream, whole.
pub proof fn encoded_bits(s: Seq<u8>)
    requires
        s.len() % 4 == 0,
    ensures
        byte_bits(gcr_encoded(s)) == gcr_bits(s),
{
    let out = gcr_encoded(s);
    assert forall|i: int| 0 <= i < gcr_bits(s).len() implies #[trigger] byte_bits(out)[i]
        == gcr_bits(s)[i] by {
        lemma_bits_of_byte_at(gcr_bits(s), 8 * (i / 8), i % 8);
    }
    assert(byte_bits(out) =~= gcr_bits(s));
}

/// What every code has in common: at most one zero at either end, never three zeros inside, and
/// never five ones.
proof fn lemma_code_shape(v: u8)
    by (bit_vector)
    requires
        v == 0b01010u8 || v == 0b01011u8 || v == 0b10010u8 || v == 0b10011u8 || v == 0b01110u8 || v
            == 0b01111u8 || v == 0b10110u8 || v == 0b10111u8 || v == 0b01001u8 || v == 0b11001u8
            || v == 0b11010u8 || v == 0b11011u8 || v == 0b01101u8 || v == 0b11101u8 || v
            == 0b11110u8 || v == 0b10101u8,
    ensures
        (v >> 4u8) & 1 == 1 || (v >> 3u8) & 1 == 1,
        (v >> 1u8) & 1 == 1 || (v >> 0u8) & 1 == 1,
        (v >> 3u8) & 1 == 1 || (v >> 2u8) & 1 == 1 || (v >> 1u8) & 1 == 1,
        (v >> 4u8) & 1 != 1 || (v >> 3u8) & 1 != 1 || (v >> 2u8) & 1 != 1 || (v >> 1u8) & 1 != 1
            || (v >> 0u8) & 1 != 1,
{
}

proof fn lemma_nibble_code(s: Seq<u8>, k: int)
    requires
        0 <= k < 2 * s.len(),
    ensures
        ({
            let v = gcr_code(nibble(s, k));
            &&& nibble(s, k) < 16
            &&& bit(v, 4) || bit(v, 3)
            &&& bit(v, 1) || bit(v, 0)
            &&& bit(v, 3) || bit(v, 2) || bit(v, 1)
            &&& !(bit(v, 4) && bit(v, 3) && bit(v, 2) && bit(v, 1) && bit(v, 0))
        }),
{
    lemma_nibble_range(s[k / 2]);
    lemma_code_shape(gcr_code(nibble(s, k)));
}

/// The encoded stream never holds more than two zero bits in a row.
pub proof fn no_three_zeros(s: Seq<u8>, i: int)
    requires
        0 <= i,
        i + 2 < gcr_bits(s).len(),
    ensures
        gcr_bits(s)[i] || gcr_bits(s)[i + 1] || gcr_bits(s)[i + 2],
{
    let k = i / 5;
    lemma_nibble_code(s, k);
    if i % 5 >= 3 {
        lemma_nibble_code(s, k + 1);
        assert((i + 2) / 5 == k + 1);
    }
}

/// The encoded stream never holds nine one bits in a row, so a sync mark cannot be mistaken for
/// data.
pub proof fn no_nine_ones(s: Seq<u8>, i: int)
    requires
        0 <= i,
        i + 8 < gcr_bits(s).len(),
    ensures
        exists|j: int| i <= j <= i + 8 && !#[trigger] gcr_bits(s)[j],
{
    let k = (i + 4) / 5;
    lemma_nibble_code(s, k);
    let b = gcr_bits(s);
    let v = gcr_code(nibble(s, k));
    assert(b[5 * k] == bit(v, 4) && b[5 * k + 1] == bit(v, 3) && b[5 * k + 2] == bit(v, 2) && b[5
        * k + 3] == bit(v, 1) && b[5 * k + 4] == bit(v, 0));
}

/// No two bytes of encoded data in a row are sync bytes.
pub proof fn encoded_data_holds_no_sync_pair(input: Seq<u8>, out: Seq<u8>, k: int)
    requires
        byte_bits(out) == gcr_bits(input),
        0 <= k,
        k + 1 < out.len(),
    ensures
        !(out[k] == SYNC_BYTE && out[k + 1] == SYNC_BYTE),
{
    if out[k] == SYNC_BYTE && out[k + 1] == SYNC_BYTE {
        no_nine_ones(input, 8 * k);
        let j = choose|j: int| 8 * k <= j <= 8 * k + 8 && !#[trigger] gcr_bits(input)[j];
        let m: u8 = (7 - j % 8) as u8;
        assert(byte_bits(out)[j] == bit(out[j / 8], 7 - j % 8));
        assert((0xFFu8 >> m) & 1 == 1) by (bit_vector)
            requires
                m < 8,
        ;
    }
}

/// Two nibbles with the same code are the same nibble.
proof fn lemma_code_injective(m: u8, n: u8)
    requires
        m < 16,
        n < 16,
        gcr_code(m) == gcr_code(n),
    ensures
        m == n,
{
}

/// Nothing is lost in the encoding: the encoded bytes `out` stand for one input only.
pub proof fn encoding_is_injective(a: Seq<u8>, b: Seq<u8>, out: Seq<u8>)
    requires
        byte_bits(out) == gcr_bits(a),
        byte_bits(out) == gcr_bits(b),
    ensures
        a == b,
{
    assert(gcr_bits(a).len() == 10 * a.len() && gcr_bits(b).len() == 10 * b.len());
    assert forall|i: int| 0 <= i < a.len() implies a[i] == b[i] by {
        lemma_same_code(a, b, 2 * i);
        lemma_same_code(a, b, 2 * i + 1);
        let (x, y) = (a[i], b[i]);
        assert((2 * i) / 2 == i && (2 * i + 1) / 2 == i);
        assert(x == y) by (bit_vector)
            requires
                x >> 4 == y >> 4,
                x & 0x0F == y & 0x0F,
        ;
    }
    assert(a =~= b);
}

proof fn lemma_same_code(a: Seq<u8>, b: Seq<u8>, k: int)
    requires
        gcr_bits(a) == gcr_bits(b),
        a.len() == b.len(),
        0 <= k < 2 * a.len(),
    ensures
        nibble(a, k) == nibble(b, k),
{
    lemma_nibble_range(a[k / 2]);
    lemma_nibble_range(b[k / 2]);
    let x = gcr_code(nibble(a, k));
    let y = gcr_code(nibble(b, k));
    let (p, q) = (gcr_bits(a), gcr_bits(b));
    assert(p[5 * k] == q[5 * k] && p[5 * k + 1] == q[5 * k + 1] && p[5 * k + 2] == q[5 * k + 2] && p[5
        * k + 3] == q[5 * k + 3] && p[5 * k + 4] == q[5 * k + 4]);
    lemma_code_range(nibble(a, k));
    lemma_code_range(nibble(b, k));
    assert(x == y) by (bit_vector)
        requires
            x < 32 && y < 32,
            (x >> 4u8) & 1 == 1 <==> (y >> 4u8) & 1 == 1,
            (x >> 3u8) & 1 == 1 <==> (y >> 3u8) & 1 == 1,
            (x >> 2u8) & 1 == 1 <==> (y >> 2u8) & 1 == 1,
            (x >> 1u8) & 1 == 1 <==> (y >> 1u8) & 1 == 1,
            (x >> 0u8) & 1 == 1 <==> (y >> 0u8) & 1 == 1,
    ;
    lemma_code_injective(nibble(a, k), nibble(b, k));
}

/// The nibble that a 5-bit code stands for, 16 for a code that stands for none.
pub open spec fn nibble_of_code(code: int) -> int {
    if code == 0b01010 {
        0x0
    } else if code == 0b01011 {
        0x1
    } else if code == 0b10010 {
        0x2
    } else if code == 0b10011 {
        0x3
    } else if code == 0b01110 {
        0x4
    } else if code == 0b01111 {
        0x5
    } else if code == 0b10110 {
        0x6
    } else if code == 0b10111 {
        0x7
    } else if code == 0b01001 {
        0x8
    } else if code == 0b11001 {
        0x9
    } else if code == 0b11010 {
        0xA
    } else if code == 0b11011 {
        0xB
    } else if code == 0b01101 {
        0xC
    } else if code == 0b11101 {
        0xD
    } else if code == 0b11110 {
        0xE
    } else if code == 0b10101 {
        0xF
    } else {
        16
    }
}

/// Bit `i` of a byte string, counted from the most significant bit of the first byte, as a number.
#[verifier::opaque]
pub open spec fn bit_value(bytes: Seq<u8>, i: int) -> int {
    let b = bytes[i / 8] as int;
    let m = i % 8;
    if m == 0 {
        b / 128 % 2
    } else if m == 1 {
        b / 64 % 2
    } else if m == 2 {
        b / 32 % 2
    } else if m == 3 {
        b / 16 % 2
    } else if m == 4 {
        b / 8 % 2
    } else if m == 5 {
        b / 4 % 2
    } else if m == 6 {
        b / 2 % 2
    } else {
        b % 2
    }
}

/// The code that five bits of a byte string make, from bit `i` on.
pub open spec fn code_at(bytes: Seq<u8>, i: int) -> int {
    16 * bit_value(bytes, i) + 8 * bit_value(bytes, i + 1) + 4 * bit_value(bytes, i + 2) + 2
        * bit_value(bytes, i + 3) + bit_value(bytes, i + 4)
}

/// What a drive makes of encoded bytes: each ten bits are two codes, which are two nibbles, which
/// are a byte.
#[verifier::opaque]
pub open spec fn decoded(bytes: Seq<u8>) -> Seq<u8> {
    Seq::new(
        (bytes.len() * 4 / 5) as nat,
        |i: int|
            (16 * nibble_of_code(code_at(bytes, 10 * i)) + nibble_of_code(
                code_at(bytes, 10 * i + 5),
            )) as u8,
    )
}

/// A bit as a number is the bit.
proof fn lemma_bit_value(bytes: Seq<u8>, i: int)
    requires
        0 <= i < 8 * bytes.len(),
    ensures
        bit_value(bytes, i) == if byte_bits(bytes)[i] {
            1int
        } else {
            0
        },
{
    reveal(bit_value);
    let v = bytes[i / 8];
    assert((v >> 7u8) & 1 == v / 128 % 2 && (v >> 6u8) & 1 == v / 64 % 2 && (v >> 5u8) & 1 == v / 32
        % 2 && (v >> 4u8) & 1 == v / 16 % 2 && (v >> 3u8) & 1 == v / 8 % 2 && (v >> 2u8) & 1 == v / 4
        % 2 && (v >> 1u8) & 1 == v / 2 % 2 && (v >> 0u8) & 1 == v % 2) by (bit_vector);
}

/// Bit `j` of the code of nibble `k` is found again in the encoded bytes.
proof fn lemma_encoded_bit(s: Seq<u8>, k: int, j: int)
    requires
        s.len() % 4 == 0,
        0 <= k < 2 * s.len(),
        0 <= j < 5,
    ensures
        bit_value(gcr_encoded(s), 5 * k + j) == if bit(gcr_code(nibble(s, k)), 4 - j) {
            1int
        } else {
            0
        },
{
    encoded_bits(s);
    lemma_bit_value(gcr_encoded(s), 5 * k + j);
    assert((5 * k + j) / 5 == k && (5 * k + j) % 5 == j);
    assert(gcr_bits(s)[5 * k + j] == bit(gcr_code(nibble(s, k)), 4 - j));
}

/// A code is its five bits.
proof fn lemma_code_bits(v: u8)
    requires
        v < 32,
    ensures
        v == (if bit(v, 4) {
            16int
        } else {
            0
        }) + (if bit(v, 3) {
            8int
        } else {
            0
        }) + (if bit(v, 2) {
            4int
        } else {
            0
        }) + (if bit(v, 1) {
            2int
        } else {
            0
        }) + (if bit(v, 0) {
            1int
        } else {
            0
        }),
{
    assert(v == 16 * ((v >> 4u8) & 1) + 8 * ((v >> 3u8) & 1) + 4 * ((v >> 2u8) & 1) + 2 * ((v >> 1u8)
        & 1) + ((v >> 0u8) & 1) && (v >> 4u8) & 1 <= 1 && (v >> 3u8) & 1 <= 1 && (v >> 2u8) & 1 <= 1
        && (v >> 1u8) & 1 <= 1 && (v >> 0u8) & 1 <= 1) by (bit_vector)
        requires
            v < 32,
    ;
}

/// A nibble is what its code stands for.
proof fn lemma_nibble_of_code(n: u8)
    requires
        n < 16,
    ensures
        nibble_of_code(gcr_code(n) as int) == n,
{
}

/// The codes in encoded bytes are those of the nibbles.
proof fn lemma_code_at(s: Seq<u8>, k: int)
    requires
        s.len() % 4 == 0,
        0 <= k < 2 * s.len(),
    ensures
        nibble_of_code(code_at(gcr_encoded(s), 5 * k)) == nibble(s, k),
{
    let n = nibble(s, k);
    let v = gcr_code(n);
    let out = gcr_encoded(s);
    assert(n < 16 && v < 32) by {
        lemma_nibble_range(s[k / 2]);
        lemma_code_range(n);
    }
    assert(code_at(out, 5 * k) == v) by {
        lemma_encoded_bit(s, k, 0);
        lemma_encoded_bit(s, k, 1);
        lemma_encoded_bit(s, k, 2);
        lemma_encoded_bit(s, k, 3);
        lemma_encoded_bit(s, k, 4);
        lemma_code_bits(v);
    }
    lemma_nibble_of_code(n);
}

/// Decoding undoes encoding, byte for byte.
pub proof fn decoding_undoes_encoding(s: Seq<u8>)
    requires
        s.len() % 4 == 0,
    ensures
        decoded(gcr_encoded(s)) == s,
{
    reveal(decoded);
    let out = gcr_encoded(s);
    assert(out.len() == s.len() / 4 * 5);
    assert forall|i: int| 0 <= i < s.len() implies #[trigger] decoded(out)[i] == s[i] by {
        lemma_code_at(s, 2 * i);
        lemma_code_at(s, 2 * i + 1);
        let x = s[i];
        assert((2 * i) / 2 == i && (2 * i + 1) / 2 == i);
        assert(x == 16 * (x >> 4) + (x & 0x0F)) by (bit_vector);
    }
    assert(decoded(out) =~= s);
}

} // verus!
