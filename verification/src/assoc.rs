//! The registry values that make the viewer the default handler of an image
//! extension: the `UserChoice` text, its hash and its encoding.

use vstd::prelude::*;

use crate::gallery::{image_extension_list, image_extensions};
use crate::platform::{le32, le32_bytes};
use crate::text::{
    ascii_lower_seq, ascii_lowercase_chars, chars_of, encode_utf16, extend_chars, string_from_chars,
    utf16_encode,
};

verus! {

/// The Base64 character for a 6-bit value.
pub open spec fn base64_char(v: nat) -> char {
    if v < 26 {
        (65 + v) as char
    } else if v < 52 {
        (97 + v - 26) as char
    } else if v < 62 {
        (48 + v - 52) as char
    } else if v == 62 {
        '+'
    } else {
        '/'
    }
}

/// Standard Base64 with `=` padding, three bytes to four characters.
pub open spec fn base64_spec(b: Seq<u8>) -> Seq<char>
    decreases b.len(),
{
    if b.len() == 0 {
        Seq::empty()
    } else {
        let b0 = b[0] as nat;
        let b1 = if b.len() > 1 {
            b[1] as nat
        } else {
            0
        };
        let b2 = if b.len() > 2 {
            b[2] as nat
        } else {
            0
        };
        let c0 = base64_char(b0 / 4);
        let c1 = base64_char((b0 % 4) * 16 + b1 / 16);
        let c2 = if b.len() > 1 {
            base64_char((b1 % 16) * 4 + b2 / 64)
        } else {
            '='
        };
        let c3 = if b.len() > 2 {
            base64_char(b2 % 64)
        } else {
            '='
        };
        seq![c0, c1, c2, c3] + if b.len() <= 3 {
            Seq::empty()
        } else {
            base64_spec(b.skip(3))
        }
    }
}

/// The 6-bit value of a Base64 character (the inverse of `base64_char`).
pub open spec fn base64_value(c: char) -> nat {
    if 'A' <= c && c <= 'Z' {
        (c as nat - 65) as nat
    } else if 'a' <= c && c <= 'z' {
        (c as nat - 97 + 26) as nat
    } else if '0' <= c && c <= '9' {
        (c as nat - 48 + 52) as nat
    } else if c == '+' {
        62
    } else {
        63
    }
}

/// `c` is one of the 64 characters of the Base64 alphabet.
pub open spec fn is_base64_char(c: char) -> bool {
    ('A' <= c && c <= 'Z') || ('a' <= c && c <= 'z') || ('0' <= c && c <= '9') || c == '+' || c
        == '/'
}

/// Standard Base64 decoding of groups of four characters, where `=` in the third
/// or fourth place ends the bytes of the group.
pub open spec fn base64_decode(s: Seq<char>) -> Seq<u8>
    decreases s.len(),
{
    if s.len() < 4 {
        Seq::empty()
    } else {
        let v0 = base64_value(s[0]);
        let v1 = base64_value(s[1]);
        let v2 = base64_value(s[2]);
        let v3 = base64_value(s[3]);
        let b0 = ((v0 * 4 + v1 / 16) % 256) as u8;
        let b1 = (((v1 % 16) * 16 + v2 / 4) % 256) as u8;
        let b2 = (((v2 % 4) * 64 + v3) % 256) as u8;
        let group = if s[2] == '=' {
            seq![b0]
        } else if s[3] == '=' {
            seq![b0, b1]
        } else {
            seq![b0, b1, b2]
        };
        group + base64_decode(s.skip(4))
    }
}

proof fn lemma_base64_char(v: nat)
    requires
        v < 64,
    ensures
        base64_value(base64_char(v)) == v,
        is_base64_char(base64_char(v)),
        base64_char(v) != '=',
{
}

proof fn lemma_base64_group(b0: nat, b1: nat, b2: nat)
    requires
        b0 < 256,
        b1 < 256,
        b2 < 256,
    ensures
        b0 / 4 < 64,
        (b0 % 4) * 16 + b1 / 16 < 64,
        (b1 % 16) * 4 + b2 / 64 < 64,
        b2 % 64 < 64,
        ((b0 / 4) * 4 + ((b0 % 4) * 16 + b1 / 16) / 16) % 256 == b0,
        ((((b0 % 4) * 16 + b1 / 16) % 16) * 16 + ((b1 % 16) * 4 + b2 / 64) / 4) % 256 == b1,
        ((((b1 % 16) * 4 + b2 / 64) % 4) * 64 + b2 % 64) % 256 == b2,
{
    assert(((b0 % 4) * 16 + b1 / 16) / 16 == b0 % 4) by (nonlinear_arith)
        requires
            b1 < 256,
    ;
    assert(((b0 % 4) * 16 + b1 / 16) % 16 == b1 / 16) by (nonlinear_arith)
        requires
            b1 < 256,
    ;
    assert(((b1 % 16) * 4 + b2 / 64) / 4 == b1 % 16) by (nonlinear_arith)
        requires
            b2 < 256,
    ;
    assert(((b1 % 16) * 4 + b2 / 64) % 4 == b2 / 64) by (nonlinear_arith)
        requires
            b2 < 256,
    ;
    assert((b0 / 4) * 4 + b0 % 4 == b0) by (nonlinear_arith);
    assert((b1 / 16) * 16 + b1 % 16 == b1) by (nonlinear_arith);
    assert((b2 / 64) * 64 + b2 % 64 == b2) by (nonlinear_arith);
    assert((b0 % 4) * 16 + b1 / 16 < 64) by (nonlinear_arith)
        requires
            b1 < 256,
    ;
    assert((b1 % 16) * 4 + b2 / 64 < 64) by (nonlinear_arith)
        requires
            b2 < 256,
    ;
}

/// Law: Base64 text is four characters for every three bytes or part of three,
/// drawn from the Base64 alphabet except for the `=` that pad a last group of
/// one or two bytes, and decoding it gives back the bytes.
pub proof fn lemma_base64_round_trip(b: Seq<u8>)
    ensures
        base64_spec(b).len() == 4 * ((b.len() + 2) / 3),
        forall|i: int|
            0 <= i < base64_spec(b).len() - (3 - b.len() % 3) % 3 ==> is_base64_char(
                #[trigger] base64_spec(b)[i],
            ),
        forall|i: int|
            base64_spec(b).len() - (3 - b.len() % 3) % 3 <= i < base64_spec(b).len() ==> #[trigger] base64_spec(
                b,
            )[i] == '=',
        base64_decode(base64_spec(b)) == b,
    decreases b.len(),
{
    if b.len() > 0 {
        let b0 = b[0] as nat;
        let b1 = if b.len() > 1 {
            b[1] as nat
        } else {
            0
        };
        let b2 = if b.len() > 2 {
            b[2] as nat
        } else {
            0
        };
        lemma_base64_group(b0, b1, b2);
        lemma_base64_char(b0 / 4);
        lemma_base64_char((b0 % 4) * 16 + b1 / 16);
        lemma_base64_char((b1 % 16) * 4 + b2 / 64);
        lemma_base64_char(b2 % 64);
        let s = base64_spec(b);
        let head = s.take(4);
        if b.len() <= 3 {
            assert(s.len() == 4);
            assert(s.skip(4) =~= Seq::<char>::empty());
            assert(base64_decode(s.skip(4)) =~= Seq::<u8>::empty());
            if b.len() == 1 {
                assert(base64_decode(s) =~= b);
            } else if b.len() == 2 {
                assert(base64_decode(s) =~= b);
            } else {
                assert(base64_decode(s) =~= b);
            }
        } else {
            let rest = b.skip(3);
            lemma_base64_round_trip(rest);
            assert(s.skip(4) =~= base64_spec(rest));
            assert(rest.len() == b.len() - 3);
            assert((b.len() + 2) / 3 == (rest.len() + 2) / 3 + 1);
            assert(b.len() % 3 == rest.len() % 3) by {
                vstd::arithmetic::div_mod::lemma_mod_add_multiples_vanish(rest.len() as int, 3);
            }
            assert forall|i: int|
                0 <= i < s.len() - (3 - b.len() % 3) % 3 implies is_base64_char(#[trigger] s[i]) by {
                if i >= 4 {
                    assert(s[i] == base64_spec(rest)[i - 4]);
                }
            }
            assert forall|i: int|
                s.len() - (3 - b.len() % 3) % 3 <= i < s.len() implies #[trigger] s[i] == '=' by {
                assert(s[i] == base64_spec(rest)[i - 4]);
            }
            assert(base64_decode(s) =~= b.take(3) + rest);
            assert(b.take(3) + rest =~= b);
        }
    }
}

fn base64_digit(v: u8) -> (c: char)
    requires
        v < 64,
    ensures
        c == base64_char(v as nat),
{
    if v < 26 {
        (65 + v) as char
    } else if v < 52 {
        (97 + v - 26) as char
    } else if v < 62 {
        (48 + v - 52) as char
    } else if v == 62 {
        '+'
    } else {
        '/'
    }
}

/// Standard Base64 encoding with `=` padding.
pub fn base64_encode(bytes: &[u8]) -> (r: String)
    ensures
        r@ == base64_spec(bytes@),
{
    let mut out: Vec<char> = Vec::new();
    let mut idx: usize = 0;
    let n = bytes.len();
    assert(bytes@.skip(0) =~= bytes@);
    while idx < n
        invariant
            n == bytes@.len(),
            idx <= n || idx == 3 * ((n + 2) / 3),
            idx % 3 == 0,
            idx < n ==> base64_spec(bytes@) == out@ + base64_spec(bytes@.skip(idx as int)),
            idx >= n ==> base64_spec(bytes@) == out@,
        decreases n + 3 - idx,
    {
        let ghost rest = bytes@.skip(idx as int);
        let b0 = bytes[idx];
        let b1: u8 = if idx + 1 < n {
            bytes[idx + 1]
        } else {
            0
        };
        let b2: u8 = if idx + 2 < n {
            bytes[idx + 2]
        } else {
            0
        };
        assert(rest[0] == b0);
        let ghost before = out@;
        out.push(base64_digit(b0 / 4));
        out.push(base64_digit((b0 % 4) * 16 + b1 / 16));
        if idx + 1 < n {
            assert(rest[1] == b1);
            out.push(base64_digit((b1 % 16) * 4 + b2 / 64));
        } else {
            out.push('=');
        }
        if idx + 2 < n {
            assert(rest[2] == b2);
            out.push(base64_digit(b2 % 64));
        } else {
            out.push('=');
        }
        proof {
            if rest.len() > 3 {
                assert(rest.skip(3) =~= bytes@.skip(idx + 3));
            }
            assert(out@ =~= before + base64_spec(rest).take(4));
        }
        idx = idx + 3;
    }
    string_from_chars(&out)
}

/// A 32-bit word with its two halves swapped (a rotation by 16 bits).
pub open spec fn word_swap_spec(v: u32) -> u32 {
    (v >> 16u32) | (v << 16u32)
}

/// Swaps the two 16-bit halves of `v`.
pub fn word_swap(v: u32) -> (r: u32)
    ensures
        r == word_swap_spec(v),
{
    (v >> 16u32) | (v << 16u32)
}

/// What the MD5 digest of `data` is (`Md5::digest` of the `md-5` crate).
pub uninterp spec fn md5_digest_spec(data: Seq<u8>) -> Seq<u8>;

/// The MD5 digest of `data`, computed by the `md-5` crate; it is 16 bytes long.
#[verifier::external_body]
fn md5_digest(data: &[u8]) -> (r: Vec<u8>)
    ensures
        r@ == md5_digest_spec(data@),
        r@.len() == 16,
{
    <md5::Md5 as md5::Digest>::digest(data).to_vec()
}

/// The multipliers of the first mixing chain for word parity `j`.
pub open spec fn chain0(j: int, k: int, m: u32) -> u32 {
    if k == 0 {
        m
    } else if j == 0 {
        if k == 1 {
            0xCF98_B111u32
        } else if k == 2 {
            0x8708_5B9Fu32
        } else if k == 3 {
            0x12CE_B96Du32
        } else {
            0x257E_1D83u32
        }
    } else {
        if k == 1 {
            0xA274_16F5u32
        } else if k == 2 {
            0xD383_96FFu32
        } else if k == 3 {
            0x7C93_2B89u32
        } else {
            0xBFA4_9F69u32
        }
    }
}

/// The multipliers of the second mixing chain for word parity `j`.
pub open spec fn chain1(j: int, k: int, m: u32) -> u32 {
    if k == 0 {
        m
    } else if j == 0 {
        if k == 1 {
            0xEF05_69FBu32
        } else if k == 2 {
            0x689B_6B9Fu32
        } else if k == 3 {
            0x79F8_A395u32
        } else {
            0xC3EF_EA97u32
        }
    } else {
        if k == 1 {
            0xC317_13DBu32
        } else if k == 2 {
            0xDDCD_1F0Fu32
        } else if k == 3 {
            0x59C3_AF2Du32
        } else {
            0x35BD_1EC9u32
        }
    }
}

/// One step of the first chain on input word `x`.
#[verifier::opaque]
pub open spec fn mix0(h: u32, x: u32, j: int, m: u32) -> u32 {
    let a = h.wrapping_add(x).wrapping_mul(chain0(j, 0, m));
    let b = word_swap_spec(a).wrapping_mul(chain0(j, 1, m));
    let c = word_swap_spec(b).wrapping_mul(chain0(j, 2, m));
    let d = word_swap_spec(c).wrapping_mul(chain0(j, 3, m));
    word_swap_spec(d).wrapping_mul(chain0(j, 4, m))
}

/// One step of the second chain on input word `x`.
#[verifier::opaque]
pub open spec fn mix1(h: u32, x: u32, j: int, m: u32) -> u32 {
    let a = h.wrapping_add(x);
    let b = word_swap_spec(a).wrapping_mul(chain1(j, 1, m)).wrapping_add(
        a.wrapping_mul(chain1(j, 0, m)),
    );
    let c = (b >> 16u32).wrapping_mul(chain1(j, 2, m)).wrapping_add(b.wrapping_mul(chain1(j, 3, m)));
    word_swap_spec(c).wrapping_mul(chain1(j, 4, m)).wrapping_add(c)
}

/// Mixing word `x` at parity `j` into the state `(h0, h1, sum of h0, sum of h1)`.
pub open spec fn hash_step(st: (u32, u32, u32, u32), x: u32, j: int, m0: u32, m1: u32) -> (
    u32,
    u32,
    u32,
    u32,
) {
    let m = if j == 0 {
        m0
    } else {
        m1
    };
    let n0 = mix0(st.0, x, j, m);
    let n1 = mix1(st.1, x, j, m);
    (n0, n1, st.2.wrapping_add(n0), st.3.wrapping_add(n1))
}

/// The state after mixing in `words`, the even words with `m0` and the odd with `m1`.
pub open spec fn hash_state(words: Seq<u32>, m0: u32, m1: u32) -> (u32, u32, u32, u32)
    decreases words.len(),
{
    if words.len() == 0 {
        (0, 0, 0, 0)
    } else {
        hash_step(
            hash_state(words.drop_last(), m0, m1),
            words.last(),
            (words.len() - 1) % 2,
            m0,
            m1,
        )
    }
}

/// The bytes of UTF-16 code units, low byte first.
pub open spec fn utf16_le_bytes(units: Seq<u16>) -> Seq<u8> {
    Seq::new(
        2 * units.len(),
        |i: int|
            if i % 2 == 0 {
                (units[i / 2] % 256) as u8
            } else {
                (units[i / 2] / 256) as u8
            },
    )
}

/// The little-endian words of the first `n` four-byte groups.
pub open spec fn le_words(bytes: Seq<u8>, n: nat) -> Seq<u32> {
    Seq::new(n, |i: int| le32(bytes, 4 * i) as u32)
}

/// The hash Windows checks on a `UserChoice` entry for the text `input`: the
/// text as NUL-terminated UTF-16 in little-endian bytes; its MD5 digest sets the
/// first multipliers of two mixing chains run over the complete eight-byte blocks
/// of those bytes; the two results are Base64 encoded. `None` when there is no
/// complete block.
pub open spec fn user_choice_hash_spec(input: Seq<char>) -> Option<Seq<char>> {
    let bytes = utf16_le_bytes(utf16_encode(input).push(0));
    let blocks = bytes.len() / 8;
    if blocks == 0 {
        None
    } else {
        let md = md5_digest_spec(bytes);
        let m0 = (le32(md, 0) as u32) | 1u32;
        let m1 = (le32(md, 4) as u32) | 1u32;
        let (h0, h1, a0, a1) = hash_state(le_words(bytes, 2 * blocks), m0, m1);
        Some(base64_spec(le32_bytes((h0 ^ h1) as nat) + le32_bytes((a0 ^ a1) as nat)))
    }
}

/// The CS64 state after mixing in, from the front, every complete eight-byte block
/// of `bytes` (its two little-endian words, the first with `m0`, the second with
/// `m1`), starting from `st`.
pub open spec fn cs64_blocks(bytes: Seq<u8>, st: (u32, u32, u32, u32), m0: u32, m1: u32) -> (
    u32,
    u32,
    u32,
    u32,
)
    decreases bytes.len(),
{
    if bytes.len() < 8 {
        st
    } else {
        cs64_blocks(
            bytes.skip(8),
            hash_step(hash_step(st, le32(bytes, 0) as u32, 0, m0, m1), le32(bytes, 4) as u32, 1, m0, m1),
            m0,
            m1,
        )
    }
}

proof fn lemma_cs64_from(bytes: Seq<u8>, k: nat, m0: u32, m1: u32)
    requires
        k <= bytes.len() / 8,
    ensures
        cs64_blocks(bytes.skip((8 * k) as int), hash_state(le_words(bytes, 2 * k), m0, m1), m0, m1)
            == hash_state(le_words(bytes, 2 * (bytes.len() / 8)), m0, m1),
    decreases bytes.len() / 8 - k,
{
    let rest = bytes.skip((8 * k) as int);
    if k < bytes.len() / 8 {
        assert(8 * k + 8 <= bytes.len());
        lemma_cs64_from(bytes, k + 1, m0, m1);
        let w1 = le_words(bytes, 2 * k + 1);
        let w2 = le_words(bytes, 2 * k + 2);
        assert(w2.drop_last() =~= w1);
        assert(w1.drop_last() =~= le_words(bytes, 2 * k));
        assert((w2.len() - 1) % 2 == 1);
        assert((w1.len() - 1) % 2 == 0);
        assert(rest.skip(8) =~= bytes.skip((8 * (k + 1)) as int));
        assert(le32(rest, 0) == le32(bytes, (8 * k) as int));
        assert(le32(rest, 4) == le32(bytes, (8 * k + 4) as int));
        assert(w1.last() == le32(bytes, (4 * (2 * k)) as int) as u32);
        assert(w2.last() == le32(bytes, (4 * (2 * k + 1)) as int) as u32);
        assert(2 * (k + 1) == 2 * k + 2);
        let st = hash_state(le_words(bytes, 2 * k), m0, m1);
        assert(hash_state(w1, m0, m1) == hash_step(st, w1.last(), 0, m0, m1));
        assert(hash_state(w2, m0, m1) == hash_step(hash_state(w1, m0, m1), w2.last(), 1, m0, m1));
        assert(rest.len() >= 8);
        assert(cs64_blocks(rest, st, m0, m1) == cs64_blocks(
            rest.skip(8),
            hash_step(hash_step(st, le32(rest, 0) as u32, 0, m0, m1), le32(rest, 4) as u32, 1, m0, m1),
            m0,
            m1,
        ));
    } else {
        assert(k == bytes.len() / 8);
        assert(rest.len() < 8);
    }
}

/// Law: the hash mixes every complete eight-byte block of the text's NUL-terminated
/// UTF-16LE bytes, however long the text: the two chains run from the front over
/// all of them, as the CS64 algorithm does, and there is a hash exactly when there
/// is at least one block.
pub proof fn lemma_hash_mixes_every_block(input: Seq<char>)
    ensures
        ({
            let bytes = utf16_le_bytes(utf16_encode(input).push(0));
            let md = md5_digest_spec(bytes);
            let m0 = (le32(md, 0) as u32) | 1u32;
            let m1 = (le32(md, 4) as u32) | 1u32;
            let (h0, h1, a0, a1) = cs64_blocks(bytes, (0, 0, 0, 0), m0, m1);
            if bytes.len() < 8 {
                user_choice_hash_spec(input) is None
            } else {
                user_choice_hash_spec(input) == Some(
                    base64_spec(le32_bytes((h0 ^ h1) as nat) + le32_bytes((a0 ^ a1) as nat)),
                )
            }
        }),
{
    let bytes = utf16_le_bytes(utf16_encode(input).push(0));
    let md = md5_digest_spec(bytes);
    let m0 = (le32(md, 0) as u32) | 1u32;
    let m1 = (le32(md, 4) as u32) | 1u32;
    lemma_cs64_from(bytes, 0, m0, m1);
    assert(bytes.skip(0) =~= bytes);
    assert(le_words(bytes, 0) =~= Seq::<u32>::empty());
}

fn mix0_step(h: u32, x: u32, j: usize, m: u32) -> (r: u32)
    requires
        j < 2,
    ensures
        r == mix0(h, x, j as int, m),
{
    reveal(mix0);
    let a = h.wrapping_add(x).wrapping_mul(m);
    let b = word_swap(a).wrapping_mul(if j == 0 {
        0xCF98_B111u32
    } else {
        0xA274_16F5u32
    });
    let c = word_swap(b).wrapping_mul(if j == 0 {
        0x8708_5B9Fu32
    } else {
        0xD383_96FFu32
    });
    let d = word_swap(c).wrapping_mul(if j == 0 {
        0x12CE_B96Du32
    } else {
        0x7C93_2B89u32
    });
    word_swap(d).wrapping_mul(if j == 0 {
        0x257E_1D83u32
    } else {
        0xBFA4_9F69u32
    })
}

fn mix1_step(h: u32, x: u32, j: usize, m: u32) -> (r: u32)
    requires
        j < 2,
    ensures
        r == mix1(h, x, j as int, m),
{
    reveal(mix1);
    let p = h.wrapping_add(x);
    let q = word_swap(p).wrapping_mul(if j == 0 {
        0xEF05_69FBu32
    } else {
        0xC317_13DBu32
    }).wrapping_add(p.wrapping_mul(m));
    let s = (q >> 16u32).wrapping_mul(if j == 0 {
        0x689B_6B9Fu32
    } else {
        0xDDCD_1F0Fu32
    }).wrapping_add(q.wrapping_mul(if j == 0 {
        0x79F8_A395u32
    } else {
        0x59C3_AF2Du32
    }));
    word_swap(s).wrapping_mul(if j == 0 {
        0xC3EF_EA97u32
    } else {
        0x35BD_1EC9u32
    }).wrapping_add(s)
}

fn word_at(b: &Vec<u8>, off: usize) -> (r: u32)
    requires
        off + 4 <= b@.len(),
    ensures
        r == le32(b@, off as int) as u32,
{
    let len = b.len();
    assert(off + 4 <= len);
    (b[off] as u32) + (b[off + 1] as u32) * 256 + (b[off + 2] as u32) * 65536 + (b[off + 3] as u32)
        * 16777216
}

fn push_le32_bytes(out: &mut Vec<u8>, v: u32)
    ensures
        final(out)@ == old(out)@ + le32_bytes(v as nat),
{
    out.push((v % 256) as u8);
    out.push(((v / 256) % 256) as u8);
    out.push(((v / 65536) % 256) as u8);
    out.push(((v / 16777216) % 256) as u8);
    assert(final(out)@ =~= old(out)@ + le32_bytes(v as nat));
}

/// Computes the `UserChoice` hash of `input` (see `user_choice_hash_spec`).
pub fn hash_string(input: &str) -> (r: Option<String>)
    ensures
        match user_choice_hash_spec(input@) {
            Some(h) => r matches Some(s) && s@ == h,
            None => r is None,
        },
{
    let mut units = encode_utf16(input);
    units.push(0);
    let mut bytes: Vec<u8> = Vec::new();
    let mut i: usize = 0;
    while i < units.len()
        invariant
            i <= units@.len(),
            bytes@ =~= utf16_le_bytes(units@.take(i as int)),
        decreases units@.len() - i,
    {
        let u = units[i];
        bytes.push((u % 256) as u8);
        bytes.push((u / 256) as u8);
        i = i + 1;
    }
    assert(units@.take(i as int) =~= units@);
    assert(bytes@ =~= utf16_le_bytes(units@));
    let block_count = bytes.len() / 8;
    if block_count == 0 {
        return None;
    }
    let md = md5_digest(bytes.as_slice());
    let m0: u32 = word_at(&md, 0) | 1u32;
    let m1: u32 = word_at(&md, 4) | 1u32;
    let mut h0: u32 = 0;
    let mut h1: u32 = 0;
    let mut a0: u32 = 0;
    let mut a1: u32 = 0;
    let total = 2 * block_count;
    let nbytes = bytes.len();
    let ghost words = le_words(bytes@, total as nat);
    let mut w: usize = 0;
    while w < total
        invariant
            nbytes == bytes@.len(),
            total == 2 * block_count,
            block_count == bytes@.len() / 8,
            words == le_words(bytes@, total as nat),
            w <= total,
            hash_state(words.take(w as int), m0, m1) == (h0, h1, a0, a1),
        decreases total - w,
    {
        assert(4 * w + 4 <= bytes@.len()) by (nonlinear_arith)
            requires
                w < total,
                total == 2 * block_count,
                block_count == bytes@.len() / 8,
        ;
        let x = word_at(&bytes, 4 * w);
        let j: usize = w % 2;
        let m: u32 = if j == 0 {
            m0
        } else {
            m1
        };
        let ghost st = (h0, h1, a0, a1);
        h0 = mix0_step(h0, x, j, m);
        a0 = a0.wrapping_add(h0);
        h1 = mix1_step(h1, x, j, m);
        a1 = a1.wrapping_add(h1);
        proof {
            assert(words.take(w + 1).drop_last() =~= words.take(w as int));
            assert(words.take(w + 1).last() == x);
            assert((h0, h1, a0, a1) == hash_step(st, x, j as int, m0, m1));
        }
        w = w + 1;
    }
    assert(words.take(w as int) =~= words);
    let mut hash_bytes: Vec<u8> = Vec::new();
    push_le32_bytes(&mut hash_bytes, h0 ^ h1);
    push_le32_bytes(&mut hash_bytes, a0 ^ a1);
    Some(base64_encode(hash_bytes.as_slice()))
}

} // verus!

verus! {

/// The lowercase hexadecimal digit of `d < 16`.
pub open spec fn hex_digit(d: nat) -> char {
    if d < 10 {
        (48 + d) as char
    } else {
        (97 + d - 10) as char
    }
}

/// The last `n` hexadecimal digits of `v`, zero-padded (`format!("{:08x}", v)`
/// for a `u32` and `n` = 8).
pub open spec fn hex_fixed(v: nat, n: nat) -> Seq<char>
    decreases n,
{
    if n == 0 {
        Seq::empty()
    } else {
        hex_fixed(v / 16, (n - 1) as nat).push(hex_digit(v % 16))
    }
}

/// The last `width` hexadecimal digits of `v`, zero-padded.
fn hex_digits(v: u64, width: u32) -> (r: Vec<char>)
    ensures
        r@ == hex_fixed(v as nat, width as nat),
{
    let mut rev: Vec<char> = Vec::new();
    let mut m: u64 = v;
    let mut k: u32 = width;
    while k > 0
        invariant
            k <= width,
            hex_fixed(v as nat, width as nat) == hex_fixed(m as nat, k as nat) + rev@.reverse(),
        decreases k,
    {
        let dv: u64 = m % 16;
        let c: char = if dv < 10 {
            ((48 + dv) as u8) as char
        } else {
            ((97 + dv - 10) as u8) as char
        };
        assert(c == hex_digit(dv as nat));
        let ghost old_rev = rev@;
        let ghost pm = m;
        rev.push(c);
        assert(rev@.reverse() =~= seq![c] + old_rev.reverse());
        m = m / 16;
        k = k - 1;
        assert(hex_fixed(pm as nat, (k + 1) as nat) == hex_fixed(m as nat, k as nat).push(c));
        assert(hex_fixed(v as nat, width as nat) =~= hex_fixed(m as nat, k as nat) + rev@.reverse());
    }
    assert(hex_fixed(m as nat, 0) =~= Seq::<char>::empty());
    let mut out: Vec<char> = Vec::new();
    let mut i: usize = rev.len();
    while i > 0
        invariant
            i <= rev@.len(),
            out@ =~= rev@.reverse().take(rev@.len() - i),
        decreases i,
    {
        i = i - 1;
        out.push(rev[i]);
        assert(out@ =~= rev@.reverse().take(rev@.len() - i));
    }
    assert(out@ =~= rev@.reverse());
    out
}

/// The text after which Windows hashes a `UserChoice`.
pub open spec fn user_experience() -> Seq<char> {
    "User Choice set via Windows User Experience {D18B6DD5-6124-4341-9318-804003BAFA0B}"@
}

/// The text whose hash protects a `UserChoice` entry: extension, user SID,
/// program id, the timestamp's high and low words in hexadecimal and the user
/// experience text, all in ASCII lowercase.
pub open spec fn user_choice_text(
    ext: Seq<char>,
    sid: Seq<char>,
    progid: Seq<char>,
    high: u32,
    low: u32,
) -> Seq<char> {
    ascii_lower_seq(
        ext + sid + progid + hex_fixed(high as nat, 8) + hex_fixed(low as nat, 8) + user_experience(),
    )
}

/// The text hashed for a `UserChoice` entry; `file_time_high` and `file_time_low`
/// are the two words of the timestamp (seconds cleared) as a `FILETIME`.
pub fn format_user_choice_string(
    ext: &str,
    sid: &str,
    progid: &str,
    file_time_high: u32,
    file_time_low: u32,
) -> (r: String)
    ensures
        r@ == user_choice_text(ext@, sid@, progid@, file_time_high, file_time_low),
{
    let mut v = chars_of(ext);
    extend_chars(&mut v, &chars_of(sid));
    extend_chars(&mut v, &chars_of(progid));
    extend_chars(&mut v, &hex_digits(file_time_high as u64, 8));
    extend_chars(&mut v, &hex_digits(file_time_low as u64, 8));
    extend_chars(
        &mut v,
        &chars_of("User Choice set via Windows User Experience {D18B6DD5-6124-4341-9318-804003BAFA0B}"),
    );
    string_from_chars(&ascii_lowercase_chars(&v))
}

/// The `UserChoice` hash for an extension, user and program at a timestamp.
pub fn generate_user_choice_hash(
    ext: &str,
    sid: &str,
    progid: &str,
    file_time_high: u32,
    file_time_low: u32,
) -> (r: Option<String>)
    ensures
        match user_choice_hash_spec(user_choice_text(ext@, sid@, progid@, file_time_high, file_time_low)) {
            Some(h) => r matches Some(s) && s@ == h,
            None => r is None,
        },
{
    let text = format_user_choice_string(ext, sid, progid, file_time_high, file_time_low);
    hash_string(text.as_str())
}

/// The registry key, under the current user, of a file extension's settings.
pub open spec fn file_exts_key_spec(name: Seq<char>) -> Seq<char> {
    "Software\\Microsoft\\Windows\\CurrentVersion\\Explorer\\FileExts\\"@ + name
}

/// The path of the registry key that holds the settings of `name` (a file
/// extension, or the temporary name it is renamed to).
pub fn file_exts_key(name: &str) -> (r: String)
    ensures
        r@ == file_exts_key_spec(name@),
{
    let mut v = chars_of("Software\\Microsoft\\Windows\\CurrentVersion\\Explorer\\FileExts\\");
    extend_chars(&mut v, &chars_of(name));
    string_from_chars(&v)
}

/// The temporary name an extension's key is renamed to while its `UserChoice` is
/// rewritten: the tick count in 16 hexadecimal digits, in braces.
pub fn temp_key_name(ticks: u64) -> (r: String)
    ensures
        r@ == seq!['{'] + hex_fixed(ticks as nat, 16) + seq!['}'],
{
    let mut v: Vec<char> = Vec::new();
    v.push('{');
    extend_chars(&mut v, &hex_digits(ticks, 16));
    v.push('}');
    assert(v@ =~= seq!['{'] + hex_fixed(ticks as nat, 16) + seq!['}']);
    string_from_chars(&v)
}

/// The extensions the viewer is made the default program for: each image
/// extension it opens, with its leading dot, in the same order.
pub fn associated_extensions() -> (r: Vec<String>)
    ensures
        r@.len() == image_extensions().len(),
        forall|i: int| 0 <= i < r@.len() ==> #[trigger] r@[i]@ == seq!['.'] + image_extensions()[i],
{
    let list = image_extension_list();
    let mut out: Vec<String> = Vec::new();
    let mut i: usize = 0;
    while i < list.len()
        invariant
            i <= list@.len(),
            list@.len() == image_extensions().len(),
            forall|k: int| 0 <= k < list@.len() ==> #[trigger] list@[k]@ == image_extensions()[k],
            out@.len() == i,
            forall|k: int| 0 <= k < i ==> #[trigger] out@[k]@ == seq!['.'] + image_extensions()[k],
        decreases list@.len() - i,
    {
        let mut v: Vec<char> = Vec::new();
        v.push('.');
        extend_chars(&mut v, &list[i]);
        assert(v@ =~= seq!['.'] + image_extensions()[i as int]);
        out.push(string_from_chars(&v));
        i = i + 1;
    }
    out
}

} // verus!
