use vstd::prelude::*;
use vstd::utf8::*;

use crate::text::{chars_of, hex_char, hex_digit, push_char};

verus! {

/// A SHA-1 style digest over the characters of a string.
///
/// Each character contributes its code point (not its UTF-8 bytes) to the
/// message words, so where every code point fits a byte the digest is the
/// usual SHA-1 of those bytes (on ASCII input, of its UTF-8 bytes),
/// written as 40 lowercase hex digits.
pub struct SimpleHash;

/// The working state of one compression: the five registers `a..e`.
pub type Registers = (i64, i64, i64, i64, i64);

/// Rotation of a 32-bit word to the left by `e` bits.
pub open spec fn spec_rotl(a: u32, e: u32) -> u32 {
    (a << e) | (a >> ((32 - e) as u32))
}

/// The per-stage constant `K` of stage `t` (each stage is twenty rounds).
pub open spec fn round_constant(t: int) -> i64 {
    if t == 0 {
        1518500249
    } else if t == 1 {
        1859775393
    } else if t == 2 {
        2400959708
    } else {
        3395469782
    }
}

/// The boolean function of stage `t`: choose, parity, majority, parity.
/// Each term is truncated to 32 bits and combined as an `i32`.
pub open spec fn spec_mix(t: int, b: i64, c: i64, d: i64) -> i32 {
    if t == 0 {
        ((b & c) as i32) ^ ((!b & d) as i32)
    } else if t == 1 || t == 3 {
        (b ^ c ^ d) as i32
    } else if t == 2 {
        ((b & c) as i32) ^ ((b & d) as i32) ^ ((c & d) as i32)
    } else {
        0
    }
}

/// The five registers before the first block.
pub open spec fn initial_state() -> Seq<i64> {
    seq![1732584193i64, 4023233417i64, 2562383102i64, 271733878i64, 3285377520i64]
}

/// The message characters followed by the end marker `U+0080`.
pub open spec fn padded(m: Seq<char>) -> Seq<char> {
    m.push('\u{80}')
}

/// Number of 512-bit blocks: room for the padded characters, four per
/// word, and two length words.
pub open spec fn block_count(m: Seq<char>) -> nat {
    ((m.len() + 1 + 8 + 63) / 64) as nat
}

/// The code point of the `k`-th padded character, or 0 past the end.
pub open spec fn char_code(c: Seq<char>, k: int) -> u32 {
    if 0 <= k < c.len() {
        c[k] as u32
    } else {
        0
    }
}

/// Four characters packed big-endian into one word, each shifted into
/// place within 32 bits.
pub open spec fn packed_word(c: Seq<char>, k: int) -> u32 {
    (char_code(c, k) << 24u32) | (char_code(c, k + 1) << 16u32) | (char_code(c, k + 2) << 8u32)
        | char_code(c, k + 3)
}

/// The sixteen words of block `b`; the last block ends with the message
/// length in bits (high word, then low word).
pub open spec fn block_words(m: Seq<char>, b: int) -> Seq<u32> {
    Seq::new(
        16,
        |j: int|
            if b == block_count(m) - 1 && j == 14 {
                ((8 * m.len()) / 0x1_0000_0000) as u32
            } else if b == block_count(m) - 1 && j == 15 {
                (8 * m.len()) as u32
            } else {
                packed_word(padded(m), 64 * b + 4 * j)
            },
    )
}

/// The first `n` words of the message schedule of `block`.
pub open spec fn spec_schedule(block: Seq<u32>, n: nat) -> Seq<u32>
    decreases n,
{
    if n <= 16 {
        block.take(n as int)
    } else {
        let p = spec_schedule(block, (n - 1) as nat);
        p.push(spec_rotl(p[n - 4] ^ p[n - 9] ^ p[n - 15] ^ p[n - 17], 1))
    }
}

/// One round `i` with schedule word `w`.
pub open spec fn spec_step(s: Registers, w: u32, i: int) -> Registers {
    let t = spec_rotl(s.0 as u32, 5) as int + spec_mix(i / 20, s.1, s.2, s.3) as int + s.4 as int
        + round_constant(i / 20) as int + w as int;
    (t as i64, s.0, spec_rotl(s.1 as u32, 30) as i64, s.2, s.3)
}

/// The registers after the first `n` rounds.
pub open spec fn spec_rounds(s: Registers, w: Seq<u32>, n: nat) -> Registers
    decreases n,
{
    if n == 0 {
        s
    } else {
        spec_step(spec_rounds(s, w, (n - 1) as nat), w[n - 1], n - 1)
    }
}

/// One compression: eighty rounds, then each register is added to the
/// state and reduced to 32 bits.
pub open spec fn spec_compress(h: Seq<i64>, block: Seq<u32>) -> Seq<i64> {
    let s = spec_rounds((h[0], h[1], h[2], h[3], h[4]), spec_schedule(block, 80), 80);
    seq![
        ((h[0] + s.0) as i64) & 0xFFFF_FFFFi64,
        ((h[1] + s.1) as i64) & 0xFFFF_FFFFi64,
        ((h[2] + s.2) as i64) & 0xFFFF_FFFFi64,
        ((h[3] + s.3) as i64) & 0xFFFF_FFFFi64,
        ((h[4] + s.4) as i64) & 0xFFFF_FFFFi64,
    ]
}

/// The state after the first `k` blocks of `m`.
pub open spec fn state_after(m: Seq<char>, k: nat) -> Seq<i64>
    decreases k,
{
    if k == 0 {
        initial_state()
    } else {
        spec_compress(state_after(m, (k - 1) as nat), block_words(m, k - 1))
    }
}

/// A word as eight lowercase hex digits, most significant first.
pub open spec fn hex8(x: i64) -> Seq<char> {
    Seq::new(8, |k: int| hex_digit(((x as u32) >> ((28 - 4 * k) as u32)) & 0xf))
}

/// The digest of `m`: its final state, each word as eight hex digits.
pub open spec fn spec_hash(m: Seq<char>) -> Seq<char> {
    let h = state_after(m, block_count(m));
    hex8(h[0]) + hex8(h[1]) + hex8(h[2]) + hex8(h[3]) + hex8(h[4])
}

/// Registers that stay within the ranges the rounds can produce.
pub open spec fn bounded(s: Registers) -> bool {
    &&& -0x8000_0000 <= s.0 < 0x8_0000_0000
    &&& -0x8000_0000 <= s.1 < 0x8_0000_0000
    &&& 0 <= s.2 < 0x1_0000_0000
    &&& 0 <= s.3 < 0x1_0000_0000
    &&& 0 <= s.4 < 0x1_0000_0000
}

/// A state word reduced to 32 bits.
pub open spec fn word_state(h: Seq<i64>) -> bool {
    &&& h.len() == 5
    &&& forall|j: int| 0 <= j < 5 ==> 0 <= #[trigger] h[j] < 0x1_0000_0000
}

/// A lowercase hexadecimal digit.
pub open spec fn is_lower_hex(c: char) -> bool {
    ('0' <= c && c <= '9') || ('a' <= c && c <= 'f')
}

/// Every digest is forty lowercase hex digits.
pub proof fn lemma_hash_is_forty_hex_digits(m: Seq<char>)
    ensures
        spec_hash(m).len() == 40,
        forall|i: int| 0 <= i < 40 ==> is_lower_hex(#[trigger] spec_hash(m)[i]),
{
    let h = state_after(m, block_count(m));
    assert forall|x: i64, k: int| 0 <= k < 8 implies is_lower_hex(#[trigger] hex8(x)[k]) by {
        let y = (x as u32) >> ((28 - 4 * k) as u32);
        assert(y & 0xf < 16) by (bit_vector);
    }
    let d = spec_hash(m);
    assert forall|i: int| 0 <= i < 40 implies is_lower_hex(#[trigger] d[i]) by {
        if i < 8 {
            assert(d[i] == hex8(h[0])[i]);
        } else if i < 16 {
            assert(d[i] == hex8(h[1])[i - 8]);
        } else if i < 24 {
            assert(d[i] == hex8(h[2])[i - 16]);
        } else if i < 32 {
            assert(d[i] == hex8(h[3])[i - 24]);
        } else {
            assert(d[i] == hex8(h[4])[i - 32]);
        }
    }
}

/// Rotating left by `e` and then by `32 - e` gives the word back.
pub proof fn lemma_rotl_undone(a: u32, e: u32)
    requires
        0 < e < 32,
    ensures
        spec_rotl(spec_rotl(a, e), (32 - e) as u32) == a,
{
    let f = (32 - e) as u32;
    let r = spec_rotl(a, e);
    assert(r == ((a << e) | (a >> f)));
    assert(((r << f) | (r >> e)) == a) by (bit_vector)
        requires
            0 < e < 32,
            f + e == 32,
            r == ((a << e) | (a >> f)),
    ;
    assert(spec_rotl(r, f) == ((r << f) | (r >> e)));
}

proof fn lemma_mask_range(x: i64)
    ensures
        0 <= x & 0xFFFF_FFFFi64 < 0x1_0000_0000,
{
    assert(0 <= x & 0xFFFF_FFFFi64 < 0x1_0000_0000) by (bit_vector);
}

proof fn lemma_state_after_words(m: Seq<char>, k: nat)
    ensures
        word_state(state_after(m, k)),
    decreases k,
{
    if k > 0 {
        lemma_state_after_words(m, (k - 1) as nat);
        let h = state_after(m, (k - 1) as nat);
        let s = spec_rounds((h[0], h[1], h[2], h[3], h[4]), spec_schedule(block_words(m, k - 1), 80), 80);
        lemma_mask_range((h[0] + s.0) as i64);
        lemma_mask_range((h[1] + s.1) as i64);
        lemma_mask_range((h[2] + s.2) as i64);
        lemma_mask_range((h[3] + s.3) as i64);
        lemma_mask_range((h[4] + s.4) as i64);
    }
}

impl SimpleHash {
    /// The digest of `input`, as 40 lowercase hex digits.
    pub fn hash(input: &str) -> (res: String)
        requires
            8 * input@.len() <= u32::MAX,
        ensures
            res@ == spec_hash(input@),
    {
        let message = SimpleHash::pad_message(input);
        let mut chars = chars_of(message.as_str());
        let ghost m = input@;
        chars.push('\u{80}');
        assert(chars@ == padded(m));
        let n = chars.len() - 1;
        let num_blocks = (chars.len() + 8 + 63) / 64;
        assert(num_blocks == block_count(m));
        let mut h0: i64 = 1732584193;
        let mut h1: i64 = 4023233417;
        let mut h2: i64 = 2562383102;
        let mut h3: i64 = 271733878;
        let mut h4: i64 = 3285377520;
        let mut blk: usize = 0;
        while blk < num_blocks
            invariant
                chars@ == padded(m),
                n == m.len(),
                8 * m.len() <= u32::MAX,
                num_blocks == block_count(m),
                blk <= num_blocks,
                seq![h0, h1, h2, h3, h4] == state_after(m, blk as nat),
            decreases num_blocks - blk,
        {
            proof {
                lemma_state_after_words(m, blk as nat);
            }
            assert(chars@.take(n as int) =~= m);
            let w = SimpleHash::block(&chars, n, blk, num_blocks);
            let ghost hs = seq![h0, h1, h2, h3, h4];
            let (a, b, c, d, e) = SimpleHash::rounds(h0, h1, h2, h3, h4, &w);
            assert(hs[0] == h0 && hs[1] == h1 && hs[2] == h2 && hs[3] == h3 && hs[4] == h4);
            h0 = (h0 + a) & 4294967295;
            h1 = (h1 + b) & 4294967295;
            h2 = (h2 + c) & 4294967295;
            h3 = (h3 + d) & 4294967295;
            h4 = (h4 + e) & 4294967295;
            blk = blk + 1;
            assert(seq![h0, h1, h2, h3, h4] =~= state_after(m, blk as nat));
        }
        let mut result = String::new();
        SimpleHash::push_hex8(&mut result, h0);
        SimpleHash::push_hex8(&mut result, h1);
        SimpleHash::push_hex8(&mut result, h2);
        SimpleHash::push_hex8(&mut result, h3);
        SimpleHash::push_hex8(&mut result, h4);
        let ghost h = state_after(m, block_count(m));
        assert(h[0] == h0 && h[1] == h1 && h[2] == h2 && h[3] == h3 && h[4] == h4);
        assert(result@ =~= spec_hash(m));
        result
    }

    /// The sixteen words of block `blk` of the padded characters `chars`.
    fn block(chars: &Vec<char>, n: usize, blk: usize, num_blocks: usize) -> (w: Vec<u32>)
        requires
            chars@ == padded(chars@.take(n as int)),
            n + 1 == chars@.len(),
            8 * n <= u32::MAX,
            num_blocks == block_count(chars@.take(n as int)),
            blk < num_blocks,
        ensures
            w@ == block_words(chars@.take(n as int), blk as int),
    {
        let ghost m = chars@.take(n as int);
        let mut w: Vec<u32> = Vec::new();
        for j in 0..16
            invariant
                chars@ == padded(m),
                n == m.len(),
                n + 1 == chars@.len(),
                8 * n <= u32::MAX,
                num_blocks == block_count(m),
                blk < num_blocks,
                w@ == block_words(m, blk as int).take(j as int),
        {
            let x: u32 = if blk == num_blocks - 1 && j == 14 {
                ((8 * (n as u64)) / 4294967296u64) as u32
            } else if blk == num_blocks - 1 && j == 15 {
                8 * (n as u32)
            } else {
                SimpleHash::packed(chars, 64 * blk + 4 * j)
            };
            w.push(x);
            assert(w@ =~= block_words(m, blk as int).take(j + 1));
        }
        assert(w@ =~= block_words(m, blk as int));
        w
    }

    /// Four characters from position `k` packed into a word.
    fn packed(chars: &Vec<char>, k: usize) -> (r: u32)
        requires
            k < usize::MAX - 4,
        ensures
            r == packed_word(chars@, k as int),
    {
        let c0: u32 = if k < chars.len() { chars[k] as u32 } else { 0 };
        let c1: u32 = if k + 1 < chars.len() { chars[k + 1] as u32 } else { 0 };
        let c2: u32 = if k + 2 < chars.len() { chars[k + 2] as u32 } else { 0 };
        let c3: u32 = if k + 3 < chars.len() { chars[k + 3] as u32 } else { 0 };
        (c0 << 24) | (c1 << 16) | (c2 << 8) | c3
    }

    /// The message schedule of a block, then the eighty rounds from
    /// `h0..h4`; returns the final registers.
    fn rounds(h0: i64, h1: i64, h2: i64, h3: i64, h4: i64, block: &Vec<u32>) -> (r: Registers)
        requires
            block@.len() == 16,
            0 <= h0 < 0x1_0000_0000,
            0 <= h1 < 0x1_0000_0000,
            0 <= h2 < 0x1_0000_0000,
            0 <= h3 < 0x1_0000_0000,
            0 <= h4 < 0x1_0000_0000,
        ensures
            r == spec_rounds((h0, h1, h2, h3, h4), spec_schedule(block@, 80), 80),
            bounded(r),
    {
        let mut temp: Vec<u32> = Vec::new();
        for i in 0..16
            invariant
                block@.len() == 16,
                temp@ == spec_schedule(block@, i as nat),
        {
            temp.push(block[i]);
            assert(temp@ =~= spec_schedule(block@, (i + 1) as nat));
        }
        for i in 16..80
            invariant
                block@.len() == 16,
                temp@ == spec_schedule(block@, i as nat),
                temp@.len() == i,
        {
            let x = SimpleHash::sha1_func(temp[i - 3] ^ temp[i - 8] ^ temp[i - 14] ^ temp[i - 16], 1);
            temp.push(x);
        }
        let ghost w = temp@;
        let ghost s0: Registers = (h0, h1, h2, h3, h4);
        let mut a = h0;
        let mut b = h1;
        let mut c = h2;
        let mut d = h3;
        let mut e = h4;
        for i in 0..80
            invariant
                temp@ == w,
                w.len() == 80,
                (a, b, c, d, e) == spec_rounds(s0, w, i as nat),
                bounded((a, b, c, d, e)),
        {
            let stage: u32 = (i / 20) as u32;
            let t = SimpleHash::sha1_func(a as u32, 5) as i64 + SimpleHash::func(stage, b, c, d) as i64
                + e + SimpleHash::round_constant(stage) + temp[i] as i64;
            e = d;
            d = c;
            c = SimpleHash::sha1_func(b as u32, 30) as i64;
            b = a;
            a = t;
        }
        (a, b, c, d, e)
    }

    /// The stage constant `K` of stage `t`.
    fn round_constant(t: u32) -> (k: i64)
        requires
            t < 4,
        ensures
            k == round_constant(t as int),
            0 <= k < 0x1_0000_0000,
    {
        if t == 0 {
            1518500249
        } else if t == 1 {
            1859775393
        } else if t == 2 {
            2400959708
        } else {
            3395469782
        }
    }

    /// The boolean function of stage `t`; 0 past the last stage.
    fn func(t: u32, b: i64, c: i64, d: i64) -> (r: i32)
        ensures
            r == spec_mix(t as int, b, c, d),
    {
        match t {
            0 => ((b & c) as i32) ^ ((!b & d) as i32),
            1 => (b ^ c ^ d) as i32,
            2 => ((b & c) as i32) ^ ((b & d) as i32) ^ ((c & d) as i32),
            3 => (b ^ c ^ d) as i32,
            _ => 0,
        }
    }

    /// `a` rotated left by `e` bits.
    pub fn sha1_func(a: u32, e: u32) -> (r: u32)
        requires
            0 < e < 32,
        ensures
            r == spec_rotl(a, e),
    {
        (a << e) | (a >> (32 - e))
    }

    /// The text of `input` rebuilt from its UTF-8 encoding: the same string.
    pub fn pad_message(input: &str) -> (res: String)
        ensures
            res@ == input@,
    {
        let encoded = SimpleHash::encode(input);
        proof {
            encode_utf8_valid_utf8(input@);
            encode_utf8_decode_utf8(input@);
        }
        match crate::text::string_from_utf8(encoded) {
            Ok(s) => s,
            Err(_) => {
                proof {
                    assert(false);
                }
                String::new()
            },
        }
    }

    /// The UTF-8 encoding of `input`, character by character.
    pub fn encode(input: &str) -> (res: Vec<u8>)
        ensures
            res@ == encode_utf8(input@),
    {
        crate::text::utf8_bytes(input)
    }

    /// Appends `x` as eight lowercase hex digits.
    fn push_hex8(s: &mut String, x: i64)
        ensures
            final(s)@ == old(s)@ + hex8(x),
    {
        let ghost s0 = old(s)@;
        let v = x as u32;
        for k in 0..8u32
            invariant
                v == x as u32,
                s@ == s0 + hex8(x).take(k as int),
        {
            let sh: u32 = 28 - 4 * k;
            let digit = (v >> sh) & 0xf;
            assert((v >> sh) & 0xf < 16) by (bit_vector);
            push_char(s, hex_char(digit));
            assert(s@ =~= s0 + hex8(x).take(k + 1));
        }
        assert(hex8(x).take(8) =~= hex8(x));
    }
}


proof fn lemma_mix_reduces(b: i64, c: i64, d: i64)
    ensures
        (((b & c) as i32) ^ ((!b & d) as i32)) as u32 == ((b as u32) & (c as u32)) ^ (!(b as u32) & (d as u32)),
        ((b ^ c ^ d) as i32) as u32 == (b as u32) ^ (c as u32) ^ (d as u32),
        (((b & c) as i32) ^ ((b & d) as i32) ^ ((c & d) as i32)) as u32 == ((b as u32) & (c as u32)) ^ ((
        b as u32) & (d as u32)) ^ ((c as u32) & (d as u32)),
{
    assert((((b & c) as i32) ^ ((!b & d) as i32)) as u32 == ((b as u32) & (c as u32)) ^ (!(b as u32) & (
    d as u32))) by (bit_vector);
    assert(((b ^ c ^ d) as i32) as u32 == (b as u32) ^ (c as u32) ^ (d as u32)) by (bit_vector);
    assert((((b & c) as i32) ^ ((b & d) as i32) ^ ((c & d) as i32)) as u32 == ((b as u32) & (c as u32))
        ^ ((b as u32) & (d as u32)) ^ ((c as u32) & (d as u32))) by (bit_vector);
}

proof fn lemma_i64_low_word(x: i64)
    ensures
        (x as u32) as int == (x as int) % 0x1_0000_0000,
        (x & 0xFFFF_FFFFi64) as int == (x as int) % 0x1_0000_0000,
{
    assert((x as u32) as int == (x as int) % 0x1_0000_0000) by (bit_vector);
    assert((x & 0xFFFF_FFFFi64) as int == (x as int) % 0x1_0000_0000) by (bit_vector);
}

proof fn lemma_i32_low_word(x: i32)
    ensures
        (x as u32) as int == (x as int) % 0x1_0000_0000,
{
    assert((x as u32) as int == (x as int) % 0x1_0000_0000) by (bit_vector);
}


/// The registers of standard SHA-1.
pub type Words = (u32, u32, u32, u32, u32);

/// Byte `k` of a padded SHA-1 message: the message, then `0x80`, then
/// zeros.
pub open spec fn sha1_pad_byte(msg: Seq<u8>, k: int) -> u32 {
    if 0 <= k < msg.len() {
        msg[k] as u32
    } else if k == msg.len() {
        0x80
    } else {
        0
    }
}

/// The number of 512-bit blocks of the padded message.
pub open spec fn sha1_block_count(msg: Seq<u8>) -> nat {
    ((msg.len() + 1 + 8 + 63) / 64) as nat
}

/// The sixteen big-endian words of block `b` of the padded message; the
/// last block ends with the 64-bit message length in bits.
pub open spec fn sha1_block(msg: Seq<u8>, b: int) -> Seq<u32> {
    Seq::new(
        16,
        |j: int|
            if b == sha1_block_count(msg) - 1 && j == 14 {
                ((8 * msg.len()) / 0x1_0000_0000) as u32
            } else if b == sha1_block_count(msg) - 1 && j == 15 {
                ((8 * msg.len()) % 0x1_0000_0000) as u32
            } else {
                let k = 64 * b + 4 * j;
                (sha1_pad_byte(msg, k) << 24u32) | (sha1_pad_byte(msg, k + 1) << 16u32) | (
                sha1_pad_byte(msg, k + 2) << 8u32) | sha1_pad_byte(msg, k + 3)
            },
    )
}

/// The SHA-1 function of stage `t`: Ch, Parity, Maj, Parity.
pub open spec fn sha1_f(t: int, x: u32, y: u32, z: u32) -> u32 {
    if t == 0 {
        (x & y) ^ (!x & z)
    } else if t == 2 {
        (x & y) ^ (x & z) ^ (y & z)
    } else {
        x ^ y ^ z
    }
}

/// One SHA-1 round, all additions modulo 2^32.
pub open spec fn sha1_step(s: Words, w: u32, i: int) -> Words {
    let t = (spec_rotl(s.0, 5) as int + sha1_f(i / 20, s.1, s.2, s.3) as int + s.4 as int
        + round_constant(i / 20) as int + w as int) % 0x1_0000_0000;
    (t as u32, s.0, spec_rotl(s.1, 30), s.2, s.3)
}

/// The registers after the first `n` SHA-1 rounds.
pub open spec fn sha1_rounds(s: Words, w: Seq<u32>, n: nat) -> Words
    decreases n,
{
    if n == 0 {
        s
    } else {
        sha1_step(sha1_rounds(s, w, (n - 1) as nat), w[n - 1], n - 1)
    }
}

/// One SHA-1 compression.
pub open spec fn sha1_compress(h: Seq<u32>, block: Seq<u32>) -> Seq<u32> {
    let s = sha1_rounds((h[0], h[1], h[2], h[3], h[4]), spec_schedule(block, 80), 80);
    seq![
        ((h[0] + s.0) % 0x1_0000_0000) as u32,
        ((h[1] + s.1) % 0x1_0000_0000) as u32,
        ((h[2] + s.2) % 0x1_0000_0000) as u32,
        ((h[3] + s.3) % 0x1_0000_0000) as u32,
        ((h[4] + s.4) % 0x1_0000_0000) as u32,
    ]
}

/// The SHA-1 state after the first `k` blocks.
pub open spec fn sha1_state(msg: Seq<u8>, k: nat) -> Seq<u32>
    decreases k,
{
    if k == 0 {
        seq![1732584193u32, 4023233417u32, 2562383102u32, 271733878u32, 3285377520u32]
    } else {
        sha1_compress(sha1_state(msg, (k - 1) as nat), sha1_block(msg, k - 1))
    }
}

/// The SHA-1 digest of `msg` (FIPS 180-4), as 40 lowercase hex digits.
pub open spec fn sha1_hex(msg: Seq<u8>) -> Seq<char> {
    let h = sha1_state(msg, sha1_block_count(msg));
    hex8(h[0] as i64) + hex8(h[1] as i64) + hex8(h[2] as i64) + hex8(h[3] as i64) + hex8(h[4] as i64)
}

/// Text whose code points all fit one byte (at most `U+00FF`).
pub open spec fn one_byte_text(m: Seq<char>) -> bool {
    forall|i: int| 0 <= i < m.len() ==> (m[i] as u32) < 256
}

/// The bytes of text whose code points fit one byte: one per character,
/// its code point (for ASCII text, its UTF-8 encoding).
pub open spec fn char_bytes(m: Seq<char>) -> Seq<u8> {
    Seq::new(m.len(), |i: int| (m[i] as u32) as u8)
}

/// The registers reduced to 32-bit words.
pub open spec fn reduce(s: Registers) -> Words {
    (s.0 as u32, s.1 as u32, s.2 as u32, s.3 as u32, s.4 as u32)
}

proof fn lemma_step_reduces(s: Registers, w: u32, i: int)
    requires
        bounded(s),
        0 <= i < 80,
    ensures
        bounded(spec_step(s, w, i)),
        reduce(spec_step(s, w, i)) == sha1_step(reduce(s), w, i),
{
    let r = reduce(s);
    let m = spec_mix(i / 20, s.1, s.2, s.3);
    lemma_mix_reduces(s.1, s.2, s.3);
    assert(m as u32 == sha1_f(i / 20, r.1, r.2, r.3));
    lemma_i32_low_word(m);
    let t = spec_rotl(s.0 as u32, 5) as int + m as int + s.4 as int + round_constant(i / 20) as int
        + w as int;
    let u = spec_rotl(r.0, 5) as int + sha1_f(i / 20, r.1, r.2, r.3) as int + r.4 as int
        + round_constant(i / 20) as int + w as int;
    assert(r.4 as int == s.4 as int);
    assert(u == t - m as int + (m as int) % 0x1_0000_0000);
    vstd::arithmetic::div_mod::lemma_mod_add_multiples_vanish(
        (t - m as int + (m as int) % 0x1_0000_0000),
        0x1_0000_0000,
    );
    assert((m as int) % 0x1_0000_0000 == m as int - 0x1_0000_0000 * ((m as int) / 0x1_0000_0000));
    vstd::arithmetic::div_mod::lemma_mod_multiples_vanish(
        -((m as int) / 0x1_0000_0000),
        t,
        0x1_0000_0000,
    );
    assert(u % 0x1_0000_0000 == t % 0x1_0000_0000);
    lemma_i64_low_word(t as i64);
    let c = spec_rotl(s.1 as u32, 30);
    assert((c as i64) as u32 == c);
}

proof fn lemma_rounds_reduce(s: Registers, w: Seq<u32>, n: nat)
    requires
        bounded(s),
        n <= 80,
        w.len() == 80,
    ensures
        bounded(spec_rounds(s, w, n)),
        reduce(spec_rounds(s, w, n)) == sha1_rounds(reduce(s), w, n),
    decreases n,
{
    if n > 0 {
        lemma_rounds_reduce(s, w, (n - 1) as nat);
        lemma_step_reduces(spec_rounds(s, w, (n - 1) as nat), w[n - 1], n - 1);
    }
}

proof fn lemma_schedule_len(block: Seq<u32>, n: nat)
    requires
        block.len() == 16,
    ensures
        spec_schedule(block, n).len() == n,
    decreases n,
{
    if n > 16 {
        lemma_schedule_len(block, (n - 1) as nat);
    }
}

proof fn lemma_add_low_word(h: i64, a: i64)
    requires
        0 <= h < 0x1_0000_0000,
        -0x8000_0000 <= a < 0x8_0000_0000,
    ensures
        (((h + a) as i64) & 0xFFFF_FFFFi64) as int == (h as u32 + a as u32) % 0x1_0000_0000,
{
    lemma_i64_low_word((h + a) as i64);
    lemma_i64_low_word(a);
    let x = h as int + a as int;
    assert((a as u32) as int == (a as int) % 0x1_0000_0000);
    assert((a as int) % 0x1_0000_0000 == a as int - 0x1_0000_0000 * ((a as int) / 0x1_0000_0000));
    vstd::arithmetic::div_mod::lemma_mod_multiples_vanish(
        -((a as int) / 0x1_0000_0000),
        x,
        0x1_0000_0000,
    );
}

proof fn lemma_compress_reduces(h: Seq<i64>, block: Seq<u32>)
    requires
        word_state(h),
        block.len() == 16,
    ensures
        spec_compress(h, block).len() == 5,
        forall|j: int| 0 <= j < 5 ==> (#[trigger] spec_compress(h, block)[j]) as u32 == sha1_compress(
            Seq::new(5, |k: int| h[k] as u32),
            block,
        )[j],
{
    let s0: Registers = (h[0], h[1], h[2], h[3], h[4]);
    let w = spec_schedule(block, 80);
    lemma_schedule_len(block, 80);
    lemma_rounds_reduce(s0, w, 80);
    let s = spec_rounds(s0, w, 80);
    let hu = Seq::new(5, |k: int| h[k] as u32);
    assert((hu[0], hu[1], hu[2], hu[3], hu[4]) == reduce(s0));
    lemma_add_low_word(h[0], s.0);
    lemma_add_low_word(h[1], s.1);
    lemma_add_low_word(h[2], s.2);
    lemma_add_low_word(h[3], s.3);
    lemma_add_low_word(h[4], s.4);
    lemma_mask_range((h[0] + s.0) as i64);
    lemma_mask_range((h[1] + s.1) as i64);
    lemma_mask_range((h[2] + s.2) as i64);
    lemma_mask_range((h[3] + s.3) as i64);
    lemma_mask_range((h[4] + s.4) as i64);
}

proof fn lemma_blocks_agree(m: Seq<char>, b: int)
    requires
        one_byte_text(m),
        8 * m.len() <= u32::MAX,
        0 <= b < block_count(m),
    ensures
        block_words(m, b) == sha1_block(char_bytes(m), b),
{
    let bytes = char_bytes(m);
    assert forall|k: int| #![trigger char_code(padded(m), k)] char_code(padded(m), k) == sha1_pad_byte(bytes, k) by {
        if 0 <= k < m.len() {
            let x = m[k] as u32;
            assert(x < 256);
            assert(x < 256 ==> ((x as u8) as u32) == x) by (bit_vector);
        }
    }
    assert forall|j: int| 0 <= j < 16 implies #[trigger] block_words(m, b)[j] == sha1_block(bytes, b)[j] by {
        let k = 64 * b + 4 * j;
        assert(char_code(padded(m), k) == sha1_pad_byte(bytes, k));
        assert(char_code(padded(m), k + 1) == sha1_pad_byte(bytes, k + 1));
        assert(char_code(padded(m), k + 2) == sha1_pad_byte(bytes, k + 2));
        assert(char_code(padded(m), k + 3) == sha1_pad_byte(bytes, k + 3));
    }
    assert(block_words(m, b) =~= sha1_block(bytes, b));
}

proof fn lemma_state_agrees(m: Seq<char>, k: nat)
    requires
        one_byte_text(m),
        8 * m.len() <= u32::MAX,
        k <= block_count(m),
    ensures
        Seq::new(5, |j: int| state_after(m, k)[j] as u32) == sha1_state(char_bytes(m), k),
    decreases k,
{
    lemma_state_after_words(m, k);
    if k > 0 {
        lemma_state_agrees(m, (k - 1) as nat);
        lemma_state_after_words(m, (k - 1) as nat);
        lemma_blocks_agree(m, k - 1);
        let h = state_after(m, (k - 1) as nat);
        lemma_compress_reduces(h, block_words(m, k - 1));
        assert(Seq::new(5, |j: int| state_after(m, k)[j] as u32) =~= sha1_state(char_bytes(m), k));
    } else {
        assert(Seq::new(5, |j: int| state_after(m, k)[j] as u32) =~= sha1_state(char_bytes(m), k));
    }
}

/// On text whose code points fit one byte, the digest is the standard
/// SHA-1 of those bytes (on ASCII text, of the text's UTF-8 bytes).
pub proof fn lemma_hash_is_sha1_of_char_bytes(m: Seq<char>)
    requires
        one_byte_text(m),
        8 * m.len() <= u32::MAX,
    ensures
        spec_hash(m) == sha1_hex(char_bytes(m)),
{
    let n = block_count(m);
    assert(sha1_block_count(char_bytes(m)) == n);
    lemma_state_agrees(m, n);
    lemma_state_after_words(m, n);
    let h = state_after(m, n);
    let g = sha1_state(char_bytes(m), n);
    assert forall|j: int| 0 <= j < 5 implies hex8(#[trigger] h[j]) == hex8(g[j] as i64) by {
        assert(g[j] == Seq::new(5, |k: int| h[k] as u32)[j]);
        assert(((g[j] as i64) as u32) == g[j]);
        assert(hex8(h[j]) =~= hex8(g[j] as i64));
    }
}

} // verus!
