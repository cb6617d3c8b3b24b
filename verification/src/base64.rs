//! Standard (RFC 4648) base64 with `=` padding, for inlining PNG bytes into
//! tool responses.

use vstd::prelude::*;
use crate::text::push_char;

verus! {

/// The RFC 4648 alphabet symbol for a 6-bit value `v < 64`.
pub open spec fn b64_symbol(v: nat) -> char {
    if v < 26 {
        ((v + 65) as u8) as char
    } else if v < 52 {
        ((v - 26 + 97) as u8) as char
    } else if v < 62 {
        ((v - 52 + 48) as u8) as char
    } else if v == 62 {
        '+'
    } else {
        '/'
    }
}

/// The four output characters for one input group of `len` (1..=3) bytes;
/// missing bytes read as zero and missing sextets print as `=`.
pub open spec fn b64_group(b0: u8, b1: u8, b2: u8, len: nat) -> Seq<char> {
    seq![
        b64_symbol((b0 / 4) as nat),
        b64_symbol(((b0 % 4) * 16 + b1 / 16) as nat),
        if len > 1 { b64_symbol(((b1 % 16) * 4 + b2 / 64) as nat) } else { '=' },
        if len > 2 { b64_symbol((b2 % 64) as nat) } else { '=' },
    ]
}

/// Base64 of a byte sequence, one three-byte group at a time.
pub open spec fn b64(bytes: Seq<u8>) -> Seq<char>
    decreases bytes.len(),
{
    if bytes.len() == 0 {
        Seq::empty()
    } else if bytes.len() < 3 {
        b64_group(bytes[0], if bytes.len() > 1 { bytes[1] } else { 0 }, 0, bytes.len())
    } else {
        b64_group(bytes[0], bytes[1], bytes[2], 3) + b64(bytes.skip(3))
    }
}

/// Every three input bytes become exactly four output characters, the last
/// partial group padded: the output length is `4 * ceil(n / 3)`.
pub proof fn lemma_b64_len(bytes: Seq<u8>)
    ensures
        b64(bytes).len() == 4 * ((bytes.len() + 2) / 3),
    decreases bytes.len(),
{
    if bytes.len() >= 3 {
        lemma_b64_len(bytes.skip(3));
    }
}

/// Encoding is group-local: a prefix whose length is a multiple of three
/// encodes on its own, and the rest continues where it left off.
pub proof fn lemma_b64_concat(a: Seq<u8>, b: Seq<u8>)
    requires
        a.len() % 3 == 0,
    ensures
        b64(a + b) == b64(a) + b64(b),
    decreases a.len(),
{
    if a.len() == 0 {
        assert(a + b =~= b);
        assert(b64(a) =~= Seq::<char>::empty());
        assert(b64(a) + b64(b) =~= b64(b));
    } else {
        lemma_b64_concat(a.skip(3), b);
        assert((a + b).skip(3) =~= a.skip(3) + b);
        assert(b64(a + b) =~= b64_group(a[0], a[1], a[2], 3) + b64(a.skip(3) + b));
        assert(b64(a + b) =~= b64(a) + b64(b));
    }
}

/// A character of the base64 alphabet: `A`–`Z`, `a`–`z`, `0`–`9`, `+`, `/`.
pub open spec fn is_b64_char(c: char) -> bool {
    let x = c as int;
    (65 <= x <= 90) || (97 <= x <= 122) || (48 <= x <= 57) || x == 43 || x == 47
}

/// The 6-bit value an alphabet character stands for.
pub open spec fn sextet(c: char) -> nat {
    let x = c as int;
    if 65 <= x <= 90 {
        (x - 65) as nat
    } else if 97 <= x <= 122 {
        (x - 71) as nat
    } else if 48 <= x <= 57 {
        (x + 4) as nat
    } else if x == 43 {
        62
    } else {
        63
    }
}

/// The bytes of one four-character group; `=` in the third or fourth
/// place ends the group early.
pub open spec fn unb64_group(c: Seq<char>) -> Seq<u8> {
    let (s0, s1, s2, s3) = (sextet(c[0]), sextet(c[1]), sextet(c[2]), sextet(c[3]));
    let b0 = ((s0 * 4 + s1 / 16) % 256) as u8;
    let b1 = (((s1 % 16) * 16 + s2 / 4) % 256) as u8;
    let b2 = (((s2 % 4) * 64 + s3) % 256) as u8;
    if c[2] == '=' {
        seq![b0]
    } else if c[3] == '=' {
        seq![b0, b1]
    } else {
        seq![b0, b1, b2]
    }
}

/// Standard base64 decoding, four characters at a time.
pub open spec fn unb64(s: Seq<char>) -> Seq<u8>
    decreases s.len(),
{
    if s.len() < 4 {
        Seq::empty()
    } else {
        unb64_group(s.take(4)) + unb64(s.skip(4))
    }
}

/// Every symbol is an alphabet character standing for its value.
proof fn lemma_symbol(v: nat)
    requires
        v < 64,
    ensures
        is_b64_char(b64_symbol(v)),
        sextet(b64_symbol(v)) == v,
{
}

/// The sextets of a group put back together give its bytes.
proof fn lemma_regroup(b0: u8, b1: u8, b2: u8)
    ensures
        ((b0 / 4) * 4 + ((b0 % 4) * 16 + b1 / 16) / 16) % 256 == b0,
        ((((b0 % 4) * 16 + b1 / 16) % 16) * 16 + ((b1 % 16) * 4 + b2 / 64) / 4) % 256 == b1,
        ((((b1 % 16) * 4 + b2 / 64) % 4) * 64 + b2 % 64) % 256 == b2,
        (b0 % 4) * 16 + b1 / 16 < 64,
        (b1 % 16) * 4 + b2 / 64 < 64,
{
    assert(((b0 / 4) * 4 + ((b0 % 4) * 16 + b1 / 16) / 16) % 256 == b0) by (bit_vector);
    assert(((((b0 % 4) * 16 + b1 / 16) % 16) * 16 + ((b1 % 16) * 4 + b2 / 64) / 4) % 256 == b1)
        by (bit_vector);
    assert(((((b1 % 16) * 4 + b2 / 64) % 4) * 64 + b2 % 64) % 256 == b2) by (bit_vector);
}

/// One group: `g` bytes give `g + 1` alphabet characters, then padding,
/// and decode back to those `g` bytes.
proof fn lemma_group(b0: u8, b1: u8, b2: u8, g: nat)
    requires
        1 <= g <= 3,
    ensures
        ({
            let grp = b64_group(b0, b1, b2, g);
            &&& grp.len() == 4
            &&& forall|i: int| 0 <= i <= g ==> is_b64_char(#[trigger] grp[i])
            &&& forall|i: int| g < i < 4 ==> #[trigger] grp[i] == '='
            &&& unb64_group(grp) == (if g == 1 {
                seq![b0]
            } else if g == 2 {
                seq![b0, b1]
            } else {
                seq![b0, b1, b2]
            })
        }),
{
    lemma_regroup(b0, b1, b2);
    lemma_symbol((b0 / 4) as nat);
    lemma_symbol(((b0 % 4) * 16 + b1 / 16) as nat);
    lemma_symbol(((b1 % 16) * 4 + b2 / 64) as nat);
    lemma_symbol((b2 % 64) as nat);
    let grp = b64_group(b0, b1, b2, g);
    assert(!is_b64_char('='));
    if g == 1 {
        assert(unb64_group(grp) =~= seq![b0]);
    } else if g == 2 {
        assert(unb64_group(grp) =~= seq![b0, b1]);
    } else {
        assert(unb64_group(grp) =~= seq![b0, b1, b2]);
    }
}

/// The output is alphabet characters followed by `(3 - n % 3) % 3` padding
/// characters `=`, and decoding it gives the input back.
pub proof fn lemma_b64_alphabet_padding_round_trip(bytes: Seq<u8>)
    ensures
        ({
            let out = b64(bytes);
            let pad = (3 - bytes.len() % 3) % 3;
            &&& forall|i: int| 0 <= i < out.len() - pad ==> is_b64_char(#[trigger] out[i])
            &&& forall|i: int| out.len() - pad <= i < out.len() ==> #[trigger] out[i] == '='
            &&& unb64(out) == bytes
        }),
    decreases bytes.len(),
{
    lemma_b64_len(bytes);
    let n = bytes.len();
    let out = b64(bytes);
    if n == 0 {
        assert(unb64(out) =~= bytes);
    } else if n >= 3 {
        let rest = bytes.skip(3);
        let group = b64_group(bytes[0], bytes[1], bytes[2], 3);
        lemma_group(bytes[0], bytes[1], bytes[2], 3);
        lemma_b64_alphabet_padding_round_trip(rest);
        lemma_b64_len(rest);
        assert(out == group + b64(rest));
        assert(out.take(4) =~= group);
        assert(out.skip(4) =~= b64(rest));
        assert(seq![bytes[0], bytes[1], bytes[2]] + rest =~= bytes);
        assert((3 - rest.len() % 3) % 3 == (3 - n % 3) % 3);
        assert forall|i: int| 0 <= i < out.len() - (3 - n % 3) % 3 implies is_b64_char(
            #[trigger] out[i],
        ) by {
            if i >= 4 {
                assert(out[i] == b64(rest)[i - 4]);
            } else {
                assert(out[i] == group[i]);
            }
        }
        assert forall|i: int| out.len() - (3 - n % 3) % 3 <= i < out.len() implies #[trigger] out[i]
            == '=' by {
            assert(out[i] == b64(rest)[i - 4]);
        }
    } else {
        let b1: u8 = if n > 1 { bytes[1] } else { 0 };
        let group = b64_group(bytes[0], b1, 0, n);
        lemma_group(bytes[0], b1, 0, n);
        assert(out == group);
        assert(out.take(4) =~= group);
        assert(out.skip(4) =~= Seq::<char>::empty());
        assert(unb64(out.skip(4)) =~= Seq::<u8>::empty());
        assert(unb64(out) =~= unb64_group(group) + Seq::<u8>::empty());
        if n == 1 {
            assert(seq![bytes[0]] =~= bytes);
        } else {
            assert(seq![bytes[0], b1] =~= bytes);
        }
    }
}

fn symbol(v: u32) -> (c: char)
    requires
        v < 64,
    ensures
        c == b64_symbol(v as nat),
{
    if v < 26 {
        ((v + 65) as u8) as char
    } else if v < 52 {
        ((v - 26 + 97) as u8) as char
    } else if v < 62 {
        ((v - 52 + 48) as u8) as char
    } else if v == 62 {
        '+'
    } else {
        '/'
    }
}

proof fn lemma_sextets(b0: u8, b1: u8, b2: u8, n: u32)
    requires
        n == ((b0 as u32) << 16u32) | ((b1 as u32) << 8u32) | (b2 as u32),
    ensures
        (n >> 18u32) & 63u32 == b0 / 4,
        (n >> 12u32) & 63u32 == (b0 % 4) * 16 + b1 / 16,
        (n >> 6u32) & 63u32 == (b1 % 16) * 4 + b2 / 64,
        n & 63u32 == b2 % 64,
{
    assert((n >> 18u32) & 63u32 == b0 / 4) by (bit_vector)
        requires
            n == ((b0 as u32) << 16u32) | ((b1 as u32) << 8u32) | (b2 as u32),
    ;
    assert((n >> 12u32) & 63u32 == (b0 % 4) * 16 + b1 / 16) by (bit_vector)
        requires
            n == ((b0 as u32) << 16u32) | ((b1 as u32) << 8u32) | (b2 as u32),
    ;
    assert((n >> 6u32) & 63u32 == (b1 % 16) * 4 + b2 / 64) by (bit_vector)
        requires
            n == ((b0 as u32) << 16u32) | ((b1 as u32) << 8u32) | (b2 as u32),
    ;
    assert(n & 63u32 == b2 % 64) by (bit_vector)
        requires
            n == ((b0 as u32) << 16u32) | ((b1 as u32) << 8u32) | (b2 as u32),
    ;
}

/// Standard base64 of `bytes`: three bytes to four symbols, `=`-padded.
pub fn base64_encode(bytes: &[u8]) -> (r: String)
    ensures
        r@ == b64(bytes@),
        r@.len() == 4 * ((bytes@.len() + 2) / 3),
{
    let len = bytes.len();
    let mut out = String::new();
    let mut i: usize = 0;
    assert(bytes@.skip(0) =~= bytes@);
    while i < len
        invariant
            len == bytes@.len(),
            i <= len,
            b64(bytes@) == out@ + b64(bytes@.skip(i as int)),
        decreases len - i,
    {
        let rest: usize = len - i;
        let b0 = bytes[i];
        let b1: u8 = if rest > 1 { bytes[i + 1] } else { 0 };
        let b2: u8 = if rest > 2 { bytes[i + 2] } else { 0 };
        let n: u32 = ((b0 as u32) << 16u32) | ((b1 as u32) << 8u32) | (b2 as u32);
        proof {
            lemma_sextets(b0, b1, b2, n);
        }
        let ghost before = out@;
        push_char(&mut out, symbol((n >> 18u32) & 63u32));
        push_char(&mut out, symbol((n >> 12u32) & 63u32));
        if rest > 1 {
            push_char(&mut out, symbol((n >> 6u32) & 63u32));
        } else {
            push_char(&mut out, '=');
        }
        if rest > 2 {
            push_char(&mut out, symbol(n & 63u32));
        } else {
            push_char(&mut out, '=');
        }
        let ghost tail = bytes@.skip(i as int);
        let step: usize = if rest >= 3 { 3 } else { rest };
        proof {
            let group_len: nat = if rest >= 3 { 3 } else { rest as nat };
            assert(out@ =~= before + b64_group(b0, b1, b2, group_len));
            if rest >= 3 {
                assert(tail.skip(3) =~= bytes@.skip(i + 3));
                assert(b64(tail) == b64_group(tail[0], tail[1], tail[2], 3) + b64(tail.skip(3)));
            } else {
                assert(bytes@.skip(i + step) =~= Seq::<u8>::empty());
                assert(b64(bytes@.skip(i + step)) =~= Seq::<char>::empty());
            }
        }
        i = i + step;
    }
    assert(bytes@.skip(len as int) =~= Seq::<u8>::empty());
    assert(out@ =~= out@ + b64(bytes@.skip(len as int)));
    proof {
        lemma_b64_len(bytes@);
    }
    out
}

} // verus!
