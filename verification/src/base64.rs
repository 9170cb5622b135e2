//! Base64 with the standard alphabet and `=` padding.
//!
//! The encoding is stated position by position: symbol `j` of the output is
//! a base-64 digit of the 24-bit number formed by input group `j / 4`, or
//! the padding symbol where that digit lies wholly beyond the input.
use vstd::prelude::*;

verus! {

/// The padding symbol, `=`.
pub const PAD: u8 = 61;

/// The number of symbols that encode `n` bytes: four for every group of
/// three bytes, the last group counted in full even when it is partial.
pub open spec fn bound_spec(n: nat) -> nat {
    ((n + 2) / 3) * 4
}

/// `x` rounded down to a multiple of four, as clearing its two low bits does.
pub open spec fn round_down_4(x: nat) -> nat {
    (x - x % 4) as nat
}

/// The sixty-four symbols, in the order of the values they stand for.
pub open spec fn alphabet() -> Seq<char> {
    "ABCDEFGHIJKLMNOPQRSTUVWXYZabcdefghijklmnopqrstuvwxyz0123456789+/"@
}

/// The symbol that stands for the six-bit value `v`.
pub open spec fn symbol(v: int) -> u8
    recommends
        0 <= v < 64,
{
    alphabet()[v] as u8
}

/// Byte `i` of `s`, and zero beyond its end.
pub open spec fn byte_at(s: Seq<u8>, i: int) -> int {
    if 0 <= i < s.len() {
        s[i] as int
    } else {
        0
    }
}

/// The 24-bit number that group `g` of `s` spells, first byte highest.
pub open spec fn group_value(s: Seq<u8>, g: int) -> int {
    byte_at(s, 3 * g) * 65536 + byte_at(s, 3 * g + 1) * 256 + byte_at(s, 3 * g + 2)
}

/// The weight of digit `k` of a four-digit number in base 64.
pub open spec fn digit_weight(k: int) -> int {
    if k == 0 {
        262144
    } else if k == 1 {
        4096
    } else if k == 2 {
        64
    } else {
        1
    }
}

/// The six-bit field that output position `j` carries.
pub open spec fn sextet(s: Seq<u8>, j: int) -> int {
    (group_value(s, j / 4) / digit_weight(j % 4)) % 64
}

/// Whether output position `j` carries at least one bit of `s`.
pub open spec fn carries_data(s: Seq<u8>, j: int) -> bool {
    3 * (j / 4) + j % 4 <= s.len()
}

/// Symbol `j` of the encoding of `s`.
pub open spec fn encoded_symbol(s: Seq<u8>, j: int) -> u8 {
    if carries_data(s, j) {
        symbol(sextet(s, j))
    } else {
        PAD
    }
}

/// The encoding of `s`.
pub open spec fn encoded(s: Seq<u8>) -> Seq<u8> {
    Seq::new(bound_spec(s.len()), |j: int| encoded_symbol(s, j))
}

const ENCODE_TABLE: [u8; 64] = [
    65, 66, 67, 68, 69, 70, 71, 72,
    73, 74, 75, 76, 77, 78, 79, 80,
    81, 82, 83, 84, 85, 86, 87, 88,
    89, 90, 97, 98, 99, 100, 101, 102,
    103, 104, 105, 106, 107, 108, 109, 110,
    111, 112, 113, 114, 115, 116, 117, 118,
    119, 120, 121, 122, 48, 49, 50, 51,
    52, 53, 54, 55, 56, 57, 43, 47,
];

fn lookup(v: u8) -> (r: u8)
    requires
        v < 64,
    ensures
        r == symbol(v as int),
{
    proof {
        reveal_strlit("ABCDEFGHIJKLMNOPQRSTUVWXYZabcdefghijklmnopqrstuvwxyz0123456789+/");
    }
    ENCODE_TABLE[v as usize]
}

/// Exact length of the encoding of `n` bytes.
///
/// Computed as `n * 4 / 3 + 3` with its two low bits cleared, which is four
/// times the number of groups of three bytes, a partial group included.
pub fn bound(n: usize) -> (r: usize)
    requires
        bound_spec(n as nat) <= usize::MAX,
    ensures
        r == bound_spec(n as nat),
        r == round_down_4(((n * 4) / 3 + 3) as nat),
{
    let groups: usize = n / 3;
    let rest: usize = n % 3;
    let x: usize = groups * 4 + (rest * 4) / 3 + 3;
    assert(x & !3usize == x - x % 4) by (bit_vector);
    x & !3
}

/// The four fields of a group, computed with shifts and masks, are the four
/// base-64 digits of the number that the group spells.
proof fn lemma_fields(t0: u8, t1: u8, t2: u8)
    ensures
        (t0 >> 2) < 64,
        (((t0 & 0x3) << 4) | (t1 >> 4)) < 64,
        (((t1 & 0xF) << 2) | (t2 >> 6)) < 64,
        (t2 & 0x3F) < 64,
        (t0 >> 2) == ((t0 * 65536 + t1 * 256 + t2) / 262144) % 64,
        (((t0 & 0x3) << 4) | (t1 >> 4)) == ((t0 * 65536 + t1 * 256 + t2) / 4096) % 64,
        (((t1 & 0xF) << 2) | (t2 >> 6)) == ((t0 * 65536 + t1 * 256 + t2) / 64) % 64,
        (t2 & 0x3F) == (t0 * 65536 + t1 * 256 + t2) % 64,
{
    let a: u32 = t0 as u32;
    let b: u32 = t1 as u32;
    let c: u32 = t2 as u32;
    assert((t0 >> 2) < 64 && (t0 >> 2) as u32 == ((a * 65536 + b * 256 + c) / 262144) % 64)
        by (bit_vector)
        requires
            a == t0 as u32,
            b < 256,
            c < 256,
    ;
    assert((((t0 & 0x3) << 4) | (t1 >> 4)) < 64 && (((t0 & 0x3) << 4) | (t1 >> 4)) as u32 == ((a
        * 65536 + b * 256 + c) / 4096) % 64) by (bit_vector)
        requires
            a == t0 as u32,
            b == t1 as u32,
            c < 256,
    ;
    assert((((t1 & 0xF) << 2) | (t2 >> 6)) < 64 && (((t1 & 0xF) << 2) | (t2 >> 6)) as u32 == ((a
        * 65536 + b * 256 + c) / 64) % 64) by (bit_vector)
        requires
            a < 256,
            b == t1 as u32,
            c == t2 as u32,
    ;
    assert((t2 & 0x3F) < 64 && (t2 & 0x3F) as u32 == (a * 65536 + b * 256 + c) % 64)
        by (bit_vector)
        requires
            a < 256,
            b < 256,
            c == t2 as u32,
    ;
}

/// Writes the encoding of `src` to the front of `dst`.
///
/// Exactly `bound(src.len())` bytes are written; what lies behind them in
/// `dst` is left as it was.
pub fn encode(dst: &mut [u8], src: &[u8])
    requires
        old(dst)@.len() >= bound_spec(src@.len()),
    ensures
        final(dst)@.len() == old(dst)@.len(),
        final(dst)@.subrange(0, bound_spec(src@.len()) as int) == encoded(src@),
        old(dst)@.len() == bound_spec(src@.len()) ==> final(dst)@ == encoded(src@),
        final(dst)@.subrange(bound_spec(src@.len()) as int, old(dst)@.len() as int)
            == old(dst)@.subrange(bound_spec(src@.len()) as int, old(dst)@.len() as int),
{
    let n: usize = src.len();
    let mut i: usize = 0;
    let mut j: usize = 0;
    let ghost mut g: int = 0;

    while n - i >= 3
        invariant
            n == src@.len(),
            i == 3 * g,
            j == 4 * g,
            i <= n,
            dst@.len() == old(dst)@.len(),
            dst@.len() >= bound_spec(src@.len()),
            forall|k: int| 0 <= k < j ==> dst@[k] == encoded_symbol(src@, k),
            forall|k: int| j <= k < dst@.len() ==> dst@[k] == old(dst)@[k],
        decreases n - i,
    {
        let t0: u8 = src[i];
        let t1: u8 = src[i + 1];
        let t2: u8 = src[i + 2];

        proof {
            lemma_fields(t0, t1, t2);
        }
        let k0: u8 = t0 >> 2;
        let k1: u8 = ((t0 & 0x3) << 4) | t1 >> 4;
        let k2: u8 = ((t1 & 0xF) << 2) | t2 >> 6;
        let k3: u8 = t2 & 0x3F;

        dst[j] = lookup(k0);
        dst[j + 1] = lookup(k1);
        dst[j + 2] = lookup(k2);
        dst[j + 3] = lookup(k3);

        proof {
            assert(group_value(src@, g) == t0 * 65536 + t1 * 256 + t2);
            assert(sextet(src@, 4 * g) == k0);
            assert(sextet(src@, 4 * g + 1) == k1);
            assert(sextet(src@, 4 * g + 2) == k2);
            assert(sextet(src@, 4 * g + 3) == k3);
            g = g + 1;
        }
        i += 3;
        j += 4;
    }

    if n - i == 1 {
        let t0: u8 = src[i];

        proof {
            lemma_fields(t0, 0, 0);
            assert(((t0 & 0x3) << 4) == (((t0 & 0x3) << 4) | (0u8 >> 4))) by (bit_vector);
        }
        let k0: u8 = t0 >> 2;
        let k1: u8 = (t0 & 0x3) << 4;

        dst[j] = lookup(k0);
        dst[j + 1] = lookup(k1);
        dst[j + 2] = PAD;
        dst[j + 3] = PAD;

        proof {
            assert(group_value(src@, g) == t0 * 65536 + 0 * 256 + 0);
            assert(sextet(src@, 4 * g) == k0);
            assert(sextet(src@, 4 * g + 1) == k1);
        }
    } else if n - i == 2 {
        let t0: u8 = src[i];
        let t1: u8 = src[i + 1];

        proof {
            lemma_fields(t0, t1, 0);
            assert(((t1 & 0xF) << 2) == (((t1 & 0xF) << 2) | (0u8 >> 6))) by (bit_vector);
        }
        let k0: u8 = t0 >> 2;
        let k1: u8 = ((t0 & 0x3) << 4) | t1 >> 4;
        let k2: u8 = (t1 & 0xF) << 2;

        dst[j] = lookup(k0);
        dst[j + 1] = lookup(k1);
        dst[j + 2] = lookup(k2);
        dst[j + 3] = PAD;

        proof {
            assert(group_value(src@, g) == t0 * 65536 + t1 * 256 + 0);
            assert(sextet(src@, 4 * g) == k0);
            assert(sextet(src@, 4 * g + 1) == k1);
            assert(sextet(src@, 4 * g + 2) == k2);
        }
    }
}


/// The value that the symbol `c` stands for, if it is one of the sixty-four.
pub open spec fn value_of(c: u8) -> Option<int> {
    if 65 <= c <= 90 {
        Some(c - 65)
    } else if 97 <= c <= 122 {
        Some(c - 71)
    } else if 48 <= c <= 57 {
        Some(c + 4)
    } else if c == 43 {
        Some(62)
    } else if c == 47 {
        Some(63)
    } else {
        None
    }
}

/// How many padding symbols end `t`: none, one or two.
pub open spec fn padding_of(t: Seq<u8>) -> int {
    if t.len() >= 2 && t[t.len() - 1] == PAD && t[t.len() - 2] == PAD {
        2
    } else if t.len() >= 1 && t[t.len() - 1] == PAD {
        1
    } else {
        0
    }
}

/// The value of symbol `j` of `t`; padding counts as zero.
pub open spec fn digit_at(t: Seq<u8>, j: int) -> int {
    match value_of(t[j]) {
        Some(v) => v,
        None => 0,
    }
}

/// The 24-bit number that the four symbols of group `g` of `t` spell.
pub open spec fn quad_value(t: Seq<u8>, g: int) -> int {
    digit_at(t, 4 * g) * 262144 + digit_at(t, 4 * g + 1) * 4096 + digit_at(t, 4 * g + 2) * 64
        + digit_at(t, 4 * g + 3)
}

/// The weight of byte `k` of a three-byte number.
pub open spec fn byte_weight(k: int) -> int {
    if k == 0 {
        65536
    } else if k == 1 {
        256
    } else {
        1
    }
}

/// Whether `t` is the encoding of some byte string: whole groups of four,
/// symbols of the alphabet before the padding, and no stray bits in the
/// symbol that precedes the padding.
pub open spec fn is_encoding(t: Seq<u8>) -> bool {
    &&& t.len() % 4 == 0
    &&& forall|j: int| 0 <= j < t.len() - padding_of(t) ==> (#[trigger] value_of(t[j])) is Some
    &&& padding_of(t) == 1 ==> digit_at(t, t.len() - 2) % 4 == 0
    &&& padding_of(t) == 2 ==> digit_at(t, t.len() - 3) % 16 == 0
}

/// The number of bytes that `t` decodes to.
pub open spec fn decoded_len(t: Seq<u8>) -> nat {
    (3 * (t.len() / 4) - padding_of(t)) as nat
}

/// Byte `i` of what `t` decodes to.
pub open spec fn decoded_byte(t: Seq<u8>, i: int) -> u8 {
    ((quad_value(t, i / 3) / byte_weight(i % 3)) % 256) as u8
}

/// The byte string that `t` encodes, if it encodes one.
pub open spec fn decoded(t: Seq<u8>) -> Option<Seq<u8>> {
    if is_encoding(t) {
        Some(Seq::new(decoded_len(t), |i: int| decoded_byte(t, i)))
    } else {
        None
    }
}

fn value(c: u8) -> (r: Option<u8>)
    ensures
        match r {
            Some(v) => value_of(c) == Some(v as int) && v < 64,
            None => value_of(c) is None,
        },
{
    if 65 <= c && c <= 90 {
        Some(c - 65)
    } else if 97 <= c && c <= 122 {
        Some(c - 71)
    } else if 48 <= c && c <= 57 {
        Some(c + 4)
    } else if c == 43 {
        Some(62)
    } else if c == 47 {
        Some(63)
    } else {
        None
    }
}

/// The three bytes of the number that four digits spell; digits that are
/// padding are given as zero.
fn join(v0: u8, v1: u8, v2: u8, v3: u8) -> (r: (u8, u8, u8))
    requires
        v0 < 64,
        v1 < 64,
        v2 < 64,
        v3 < 64,
    ensures
        r.0 == ((v0 * 262144 + v1 * 4096 + v2 * 64 + v3) / 65536) % 256,
        r.1 == ((v0 * 262144 + v1 * 4096 + v2 * 64 + v3) / 256) % 256,
        r.2 == (v0 * 262144 + v1 * 4096 + v2 * 64 + v3) % 256,
{
    proof {
        lemma_number_of_digits(v0 as int, v1 as int, v2 as int, v3 as int);
    }
    let w: u32 = (v0 as u32) * 262144 + (v1 as u32) * 4096 + (v2 as u32) * 64 + (v3 as u32);
    ((w / 65536) as u8, ((w / 256) % 256) as u8, (w % 256) as u8)
}

/// The bytes that group `g` of `t` decodes to, by the values of its symbols.
proof fn lemma_decoded_group(t: Seq<u8>, g: int, v0: int, v1: int, v2: int, v3: int)
    requires
        0 <= g,
        digit_at(t, 4 * g) == v0,
        digit_at(t, 4 * g + 1) == v1,
        digit_at(t, 4 * g + 2) == v2,
        digit_at(t, 4 * g + 3) == v3,
    ensures
        decoded_byte(t, 3 * g) == (((v0 * 262144 + v1 * 4096 + v2 * 64 + v3) / 65536) % 256) as u8,
        decoded_byte(t, 3 * g + 1) == (((v0 * 262144 + v1 * 4096 + v2 * 64 + v3) / 256) % 256) as u8,
        decoded_byte(t, 3 * g + 2) == ((v0 * 262144 + v1 * 4096 + v2 * 64 + v3) % 256) as u8,
{
    assert((3 * g) / 3 == g && (3 * g) % 3 == 0);
    assert((3 * g + 1) / 3 == g && (3 * g + 1) % 3 == 1);
    assert((3 * g + 2) / 3 == g && (3 * g + 2) % 3 == 2);
    assert(quad_value(t, g) == v0 * 262144 + v1 * 4096 + v2 * 64 + v3);
}

/// Decodes `src`, or returns `None` if it is not an encoding.
pub fn decode(src: &[u8]) -> (r: Option<Vec<u8>>)
    ensures
        match r {
            Some(v) => decoded(src@) == Some(v@),
            None => decoded(src@) is None,
        },
{
    let n: usize = src.len();
    if n % 4 != 0 {
        return None;
    }
    let pad: usize = if n >= 2 && src[n - 1] == PAD && src[n - 2] == PAD {
        2
    } else if n >= 1 && src[n - 1] == PAD {
        1
    } else {
        0
    };
    let whole: usize = if pad == 0 {
        n / 4
    } else {
        n / 4 - 1
    };
    let mut out: Vec<u8> = Vec::new();
    let mut g: usize = 0;
    while g < whole
        invariant
            n == src@.len(),
            pad == padding_of(src@),
            4 * whole + pad <= n,
            g <= whole,
            out@.len() == 3 * g,
            forall|i: int| 0 <= i < 3 * g ==> out@[i] == decoded_byte(src@, i),
            forall|j: int| 0 <= j < 4 * g ==> (#[trigger] value_of(src@[j])) is Some,
        decreases whole - g,
    {
        let j: usize = 4 * g;
        match (value(src[j]), value(src[j + 1]), value(src[j + 2]), value(src[j + 3])) {
            (Some(v0), Some(v1), Some(v2), Some(v3)) => {
                let (b0, b1, b2) = join(v0, v1, v2, v3);
                proof {
                    lemma_decoded_group(src@, g as int, v0 as int, v1 as int, v2 as int, v3 as int);
                }
                out.push(b0);
                out.push(b1);
                out.push(b2);
            },
            _ => {
                return None;
            },
        }
        g += 1;
    }
    assert(value_of(PAD) is None);
    if pad == 1 {
        let j: usize = 4 * g;
        match (value(src[j]), value(src[j + 1]), value(src[j + 2])) {
            (Some(v0), Some(v1), Some(v2)) => {
                if v2 % 4 != 0 {
                    return None;
                }
                let (b0, b1, _) = join(v0, v1, v2, 0);
                proof {
                    lemma_decoded_group(src@, g as int, v0 as int, v1 as int, v2 as int, 0);
                }
                out.push(b0);
                out.push(b1);
            },
            _ => {
                return None;
            },
        }
    } else if pad == 2 {
        let j: usize = 4 * g;
        match (value(src[j]), value(src[j + 1])) {
            (Some(v0), Some(v1)) => {
                if v1 % 16 != 0 {
                    return None;
                }
                let (b0, _, _) = join(v0, v1, 0, 0);
                proof {
                    lemma_decoded_group(src@, g as int, v0 as int, v1 as int, 0, 0);
                }
                out.push(b0);
            },
            _ => {
                return None;
            },
        }
    }
    proof {
        assert(is_encoding(src@));
        assert(out@ =~= Seq::new(decoded_len(src@), |i: int| decoded_byte(src@, i)));
    }
    Some(out)
}

/// How many padding symbols end the encoding of `n` bytes.
pub open spec fn padding_for(n: nat) -> int {
    (3 - n % 3) % 3
}

/// For every length the bound is a multiple of four, and clearing the two
/// low bits of `n * 4 / 3 + 3` gives four symbols for each started group of
/// three bytes.
pub proof fn lemma_bound_formula(n: nat)
    ensures
        bound_spec(n) % 4 == 0,
        bound_spec(n) == ((n + 2) / 3) * 4,
        bound_spec(n) == round_down_4(((n * 4) / 3 + 3) as nat),
{
}

/// Each of the sixty-four symbols stands for the value it was chosen for,
/// and the padding symbol stands for none.
pub proof fn lemma_value_of_symbol(v: int)
    requires
        0 <= v < 64,
    ensures
        value_of(symbol(v)) == Some(v),
        symbol(v) != PAD,
        value_of(PAD) is None,
{
    reveal_strlit("ABCDEFGHIJKLMNOPQRSTUVWXYZabcdefghijklmnopqrstuvwxyz0123456789+/");
}

/// A byte that stands for a value is the symbol of that value.
pub proof fn lemma_symbol_of_value(c: u8)
    requires
        value_of(c) is Some,
    ensures
        0 <= value_of(c)->0 < 64,
        symbol(value_of(c)->0) == c,
{
    reveal_strlit("ABCDEFGHIJKLMNOPQRSTUVWXYZabcdefghijklmnopqrstuvwxyz0123456789+/");
}

/// The base-64 digits of a three-byte number spell it, its bytes can be read
/// back from it, and the digits that lie beyond a zero tail are zero.
proof fn lemma_digits_of_bytes(b0: int, b1: int, b2: int)
    requires
        0 <= b0 < 256,
        0 <= b1 < 256,
        0 <= b2 < 256,
    ensures
        ({
            let w = b0 * 65536 + b1 * 256 + b2;
            let d0 = (w / 262144) % 64;
            let d1 = (w / 4096) % 64;
            let d2 = (w / 64) % 64;
            let d3 = w % 64;
            &&& d0 * 262144 + d1 * 4096 + d2 * 64 + d3 == w
            &&& (w / 65536) % 256 == b0
            &&& (w / 256) % 256 == b1
            &&& w % 256 == b2
            &&& b2 == 0 ==> d3 == 0 && d2 % 4 == 0
            &&& b1 == 0 && b2 == 0 ==> d2 == 0 && d1 % 16 == 0
        }),
{
    let x: u32 = b0 as u32;
    let y: u32 = b1 as u32;
    let z: u32 = b2 as u32;
    assert({
        let w = (x * 65536 + y * 256 + z) as u32;
        let d0 = (w / 262144) % 64;
        let d1 = (w / 4096) % 64;
        let d2 = (w / 64) % 64;
        let d3 = w % 64;
        &&& d0 * 262144 + d1 * 4096 + d2 * 64 + d3 == w
        &&& (w / 65536) % 256 == x
        &&& (w / 256) % 256 == y
        &&& w % 256 == z
        &&& z == 0 ==> d3 == 0 && d2 % 4 == 0
        &&& y == 0 && z == 0 ==> d2 == 0 && d1 % 16 == 0
    }) by (bit_vector)
        requires
            x < 256,
            y < 256,
            z < 256,
    ;
}

/// What the four output positions of group `g` carry.
proof fn lemma_group(s: Seq<u8>, g: int)
    requires
        0 <= g,
        3 * g < s.len(),
    ensures
        forall|k: int| 0 <= k < 4 ==> 0 <= #[trigger] sextet(s, 4 * g + k) < 64,
        sextet(s, 4 * g) * 262144 + sextet(s, 4 * g + 1) * 4096 + sextet(s, 4 * g + 2) * 64
            + sextet(s, 4 * g + 3) == group_value(s, g),
        (group_value(s, g) / 65536) % 256 == byte_at(s, 3 * g),
        (group_value(s, g) / 256) % 256 == byte_at(s, 3 * g + 1),
        group_value(s, g) % 256 == byte_at(s, 3 * g + 2),
        carries_data(s, 4 * g),
        carries_data(s, 4 * g + 1),
        carries_data(s, 4 * g + 2) <==> 3 * g + 1 < s.len(),
        carries_data(s, 4 * g + 3) <==> 3 * g + 2 < s.len(),
        !carries_data(s, 4 * g + 3) ==> sextet(s, 4 * g + 3) == 0 && sextet(s, 4 * g + 2) % 4 == 0,
        !carries_data(s, 4 * g + 2) ==> sextet(s, 4 * g + 2) == 0 && sextet(s, 4 * g + 1) % 16
            == 0,
{
    lemma_digits_of_bytes(byte_at(s, 3 * g), byte_at(s, 3 * g + 1), byte_at(s, 3 * g + 2));
    assert((4 * g) / 4 == g && (4 * g) % 4 == 0);
    assert((4 * g + 1) / 4 == g && (4 * g + 1) % 4 == 1);
    assert((4 * g + 2) / 4 == g && (4 * g + 2) % 4 == 2);
    assert((4 * g + 3) / 4 == g && (4 * g + 3) % 4 == 3);
}

/// Every symbol of an encoding is one of the sixty-four or the padding
/// symbol, and the padding symbols are exactly its last none, one or two.
pub proof fn lemma_encoded_symbols(s: Seq<u8>)
    ensures
        encoded(s).len() == bound_spec(s.len()),
        0 <= padding_for(s.len()) <= 2,
        padding_for(s.len()) <= encoded(s).len(),
        forall|j: int|
            0 <= j < encoded(s).len() ==> (#[trigger] encoded(s)[j] == PAD || exists|v: int|
                0 <= v < 64 && encoded(s)[j] == symbol(v)),
        forall|j: int|
            0 <= j < encoded(s).len() ==> (#[trigger] encoded(s)[j] == PAD <==> j >= encoded(
                s,
            ).len() - padding_for(s.len())),
{
    let e = encoded(s);
    assert forall|j: int| 0 <= j < e.len() implies (#[trigger] e[j] == PAD || exists|v: int|
        0 <= v < 64 && e[j] == symbol(v)) && (e[j] == PAD <==> j >= e.len() - padding_for(
        s.len(),
    )) by {
        let g = j / 4;
        let k = j % 4;
        lemma_group(s, g);
        assert(j == 4 * g + k);
        assert(0 <= sextet(s, 4 * g + k) < 64);
        lemma_value_of_symbol(sextet(s, j));
        assert(e[j] == encoded_symbol(s, j));
    }
}

/// Decoding an encoding gives back the bytes that were encoded.
pub proof fn lemma_round_trip(s: Seq<u8>)
    ensures
        decoded(encoded(s)) == Some(s),
{
    let e = encoded(s);
    let n = s.len();
    lemma_encoded_symbols(s);
    lemma_value_of_symbol(0);
    assert(padding_of(e) == padding_for(n));
    assert forall|j: int| 0 <= j < e.len() implies digit_at(e, j) == sextet(s, j) && (j < e.len()
        - padding_of(e) ==> (#[trigger] value_of(e[j])) is Some) by {
        let g = j / 4;
        let k = j % 4;
        lemma_group(s, g);
        assert(j == 4 * g + k);
        assert(0 <= sextet(s, 4 * g + k) < 64);
        lemma_value_of_symbol(sextet(s, j));
        assert(e[j] == encoded_symbol(s, j));
    }
    assert(is_encoding(e)) by {
        if padding_of(e) > 0 {
            let g = e.len() / 4 - 1;
            lemma_group(s, g);
            assert(digit_at(e, 4 * g + 2) == sextet(s, 4 * g + 2));
            assert(digit_at(e, 4 * g + 1) == sextet(s, 4 * g + 1));
        }
    }
    assert(decoded_len(e) == n);
    let d = decoded(e)->0;
    assert forall|i: int| 0 <= i < n implies d[i] == s[i] by {
        let g = i / 3;
        lemma_group(s, g);
        assert(digit_at(e, 4 * g) == sextet(s, 4 * g));
        assert(digit_at(e, 4 * g + 1) == sextet(s, 4 * g + 1));
        assert(digit_at(e, 4 * g + 2) == sextet(s, 4 * g + 2));
        assert(digit_at(e, 4 * g + 3) == sextet(s, 4 * g + 3));
        assert(quad_value(e, g) == group_value(s, g));
        assert(d[i] == decoded_byte(e, i));
    }
    assert(d =~= s);
}


/// The digits and the bytes of a 24-bit number given by four base-64 digits.
proof fn lemma_number_of_digits(v0: int, v1: int, v2: int, v3: int)
    requires
        0 <= v0 < 64,
        0 <= v1 < 64,
        0 <= v2 < 64,
        0 <= v3 < 64,
    ensures
        ({
            let w = v0 * 262144 + v1 * 4096 + v2 * 64 + v3;
            let b0 = (w / 65536) % 256;
            let b1 = (w / 256) % 256;
            let b2 = w % 256;
            &&& (w / 262144) % 64 == v0
            &&& (w / 4096) % 64 == v1
            &&& (w / 64) % 64 == v2
            &&& w % 64 == v3
            &&& b0 * 65536 + b1 * 256 + b2 == w
            &&& v3 == 0 && v2 % 4 == 0 ==> b2 == 0
            &&& v3 == 0 && v2 == 0 && v1 % 16 == 0 ==> b1 == 0 && b2 == 0
        }),
{
    let a: u32 = v0 as u32;
    let b: u32 = v1 as u32;
    let c: u32 = v2 as u32;
    let d: u32 = v3 as u32;
    assert({
        let w = (a * 262144 + b * 4096 + c * 64 + d) as u32;
        let b0 = (w / 65536) % 256;
        let b1 = (w / 256) % 256;
        let b2 = w % 256;
        &&& (w / 262144) % 64 == a
        &&& (w / 4096) % 64 == b
        &&& (w / 64) % 64 == c
        &&& w % 64 == d
        &&& b0 * 65536 + b1 * 256 + b2 == w
        &&& d == 0 && c % 4 == 0 ==> b2 == 0
        &&& d == 0 && c == 0 && b % 16 == 0 ==> b1 == 0 && b2 == 0
    }) by (bit_vector)
        requires
            a < 64,
            b < 64,
            c < 64,
            d < 64,
    ;
}

/// Only the encoding of a byte string decodes to it: whatever decodes at
/// all is the encoding of what it decodes to.
pub proof fn lemma_decoded_is_encoded(t: Seq<u8>)
    requires
        decoded(t) is Some,
    ensures
        encoded(decoded(t)->0) == t,
{
    let s = decoded(t)->0;
    let n = s.len();
    let p = padding_of(t);
    let groups = t.len() / 4;
    assert(n == 3 * groups - p);
    assert(bound_spec(n) == t.len());
    let e = encoded(s);
    assert forall|j: int| 0 <= j < t.len() implies e[j] == t[j] by {
        let g = j / 4;
        let k = j % 4;
        assert(j == 4 * g + k);
        assert(value_of(PAD) is None);
        assert forall|m: int| 0 <= m < 4 implies 0 <= #[trigger] digit_at(t, 4 * g + m) < 64 by {
            if value_of(t[4 * g + m]) is Some {
                lemma_symbol_of_value(t[4 * g + m]);
            }
        }
        lemma_number_of_digits(
            digit_at(t, 4 * g),
            digit_at(t, 4 * g + 1),
            digit_at(t, 4 * g + 2),
            digit_at(t, 4 * g + 3),
        );
        let q = quad_value(t, g);
        assert((3 * g) / 3 == g && (3 * g) % 3 == 0);
        assert((3 * g + 1) / 3 == g && (3 * g + 1) % 3 == 1);
        assert((3 * g + 2) / 3 == g && (3 * g + 2) % 3 == 2);
        assert(byte_at(s, 3 * g) == (q / 65536) % 256) by {
            assert(3 * g < n);
            assert(s[3 * g] == decoded_byte(t, 3 * g));
        }
        assert(byte_at(s, 3 * g + 1) == (q / 256) % 256) by {
            if 3 * g + 1 < n {
                assert(s[3 * g + 1] == decoded_byte(t, 3 * g + 1));
            } else {
                assert(p == 2 && g == groups - 1);
            }
        }
        assert(byte_at(s, 3 * g + 2) == q % 256) by {
            if 3 * g + 2 < n {
                assert(s[3 * g + 2] == decoded_byte(t, 3 * g + 2));
            } else {
                assert(p >= 1 && g == groups - 1);
            }
        }
        assert(group_value(s, g) == q);
        assert(sextet(s, j) == digit_at(t, j));
        assert(e[j] == encoded_symbol(s, j));
        if j < t.len() - p {
            assert(carries_data(s, j));
            assert(value_of(t[j]) is Some);
            lemma_symbol_of_value(t[j]);
        } else {
            assert(!carries_data(s, j));
            assert(t[j] == PAD);
        }
    }
    assert(e =~= t);
}

} // verus!
