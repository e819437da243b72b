//! Upper-case hexadecimal rendering and strict base-16 parsing of `u64`
//! values, as `{:X}` and `u64::from_str_radix(_, 16)` do them.
use vstd::prelude::*;
use vstd::string::*;
use crate::text::{is_digit, free_of};

verus! {

/// The upper-case character for hexadecimal digit `d` (`0 <= d < 16`).
pub open spec fn hex_digit_char(d: int) -> char {
    if d < 10 {
        (d + 48) as char
    } else {
        (d + 55) as char
    }
}

/// Whether `c` is a hexadecimal digit of either case.
pub open spec fn is_hex_digit(c: char) -> bool {
    is_digit(c) || (65 <= (c as int) <= 70) || (97 <= (c as int) <= 102)
}

/// The value of the hexadecimal digit `c`.
pub open spec fn hex_digit_value(c: char) -> int {
    if is_digit(c) {
        (c as int) - 48
    } else if 65 <= (c as int) <= 70 {
        (c as int) - 55
    } else {
        (c as int) - 87
    }
}

/// Whether every character of `s` is a hexadecimal digit.
pub open spec fn all_hex_digits(s: Seq<char>) -> bool {
    forall|i: int| 0 <= i < s.len() ==> is_hex_digit(#[trigger] s[i])
}

/// The number a hexadecimal digit string denotes.
pub open spec fn hex_value(s: Seq<char>) -> int
    decreases s.len(),
{
    if s.len() == 0 {
        0
    } else {
        hex_value(s.drop_last()) * 16 + hex_digit_value(s.last())
    }
}

/// The upper-case hexadecimal rendering of `n`: no prefix, no leading zeros.
pub open spec fn upper_hex(n: nat) -> Seq<char>
    decreases n,
{
    if n < 16 {
        seq![hex_digit_char(n as int)]
    } else {
        upper_hex(n / 16).push(hex_digit_char((n % 16) as int))
    }
}

/// Strict base-16 `u64` parsing: an optional `+`, then at least one
/// hexadecimal digit of either case and nothing else, with a value that fits.
pub open spec fn parse_hex_u64(s: Seq<char>) -> Option<u64> {
    let body = if s.len() > 0 && s[0] == '+' {
        s.drop_first()
    } else {
        s
    };
    if body.len() > 0 && all_hex_digits(body) && hex_value(body) <= u64::MAX {
        Some(hex_value(body) as u64)
    } else {
        None
    }
}

pub proof fn lemma_hex_value_push(s: Seq<char>, c: char)
    ensures
        hex_value(s.push(c)) == hex_value(s) * 16 + hex_digit_value(c),
{
    assert(s.push(c).drop_last() =~= s);
}

/// `upper_hex(n)` is a non-empty, sign-free digit string free of the field
/// separators, and it denotes `n`.
pub proof fn lemma_upper_hex_props(n: nat)
    ensures
        upper_hex(n).len() >= 1,
        all_hex_digits(upper_hex(n)),
        free_of(upper_hex(n), '|'),
        free_of(upper_hex(n), ':'),
        upper_hex(n)[0] != '+',
        hex_value(upper_hex(n)) == n,
    decreases n,
{
    if n < 16 {
        let s = upper_hex(n);
        assert(s.drop_last() =~= Seq::<char>::empty());
        assert(hex_digit_value(hex_digit_char(n as int)) == n);
        assert(hex_value(s) == hex_value(s.drop_last()) * 16 + hex_digit_value(s.last()));
    } else {
        lemma_upper_hex_props(n / 16);
        let d = hex_digit_char((n % 16) as int);
        lemma_hex_value_push(upper_hex(n / 16), d);
        let s = upper_hex(n);
        assert(s[0] == upper_hex(n / 16)[0]);
        assert(hex_digit_value(d) == n % 16);
        assert forall|i: int| 0 <= i < s.len() implies is_hex_digit(#[trigger] s[i]) && s[i] != '|'
            && s[i] != ':' by {
            if i < s.len() - 1 {
                assert(s[i] == upper_hex(n / 16)[i]);
            }
        }
    }
}

/// Parsing the rendering of a 64-bit value gives the value back.
pub proof fn lemma_parse_upper_hex(n: u64)
    ensures
        parse_hex_u64(upper_hex(n as nat)) == Some(n),
{
    lemma_upper_hex_props(n as nat);
}

/// The one-character string for hexadecimal digit `d`.
fn hex_digit_str(d: u64) -> (s: &'static str)
    requires
        d < 16,
    ensures
        s@ == seq![hex_digit_char(d as int)],
{
    if d == 0 { proof { reveal_strlit("0"); } "0" }
    else if d == 1 { proof { reveal_strlit("1"); } "1" }
    else if d == 2 { proof { reveal_strlit("2"); } "2" }
    else if d == 3 { proof { reveal_strlit("3"); } "3" }
    else if d == 4 { proof { reveal_strlit("4"); } "4" }
    else if d == 5 { proof { reveal_strlit("5"); } "5" }
    else if d == 6 { proof { reveal_strlit("6"); } "6" }
    else if d == 7 { proof { reveal_strlit("7"); } "7" }
    else if d == 8 { proof { reveal_strlit("8"); } "8" }
    else if d == 9 { proof { reveal_strlit("9"); } "9" }
    else if d == 10 { proof { reveal_strlit("A"); } "A" }
    else if d == 11 { proof { reveal_strlit("B"); } "B" }
    else if d == 12 { proof { reveal_strlit("C"); } "C" }
    else if d == 13 { proof { reveal_strlit("D"); } "D" }
    else if d == 14 { proof { reveal_strlit("E"); } "E" }
    else { proof { reveal_strlit("F"); } "F" }
}

/// Appends the upper-case hexadecimal rendering of `n` to `out`.
pub fn push_upper_hex(out: &mut String, n: u64)
    ensures
        final(out)@ == old(out)@ + upper_hex(n as nat),
    decreases n,
{
    if n >= 16 {
        push_upper_hex(out, n / 16);
    }
    out.append(hex_digit_str(n % 16));
    proof {
        if n >= 16 {
            assert(upper_hex(n as nat) == upper_hex((n / 16) as nat).push(hex_digit_char((n % 16) as int)));
        }
    }
    assert(final(out)@ =~= old(out)@ + upper_hex(n as nat));
}

/// Strict base-16 parsing (see [`parse_hex_u64`]).
pub fn parse_hex_u64_chars(s: &[char]) -> (r: Option<u64>)
    ensures
        r == parse_hex_u64(s@),
{
    let ghost body = if s@.len() > 0 && s@[0] == '+' {
        s@.drop_first()
    } else {
        s@
    };
    let start: usize = if s.len() > 0 && s[0] == '+' {
        1
    } else {
        0
    };
    if start >= s.len() {
        assert(body.len() == 0);
        return None;
    }
    let mut v: u64 = 0;
    let mut over = false;
    let mut i: usize = start;
    assert(s@.subrange(start as int, start as int) =~= Seq::<char>::empty());
    while i < s.len()
        invariant
            body == (if s@.len() > 0 && s@[0] == '+' { s@.drop_first() } else { s@ }),
            start <= i <= s.len(),
            body =~= s@.subrange(start as int, s@.len() as int),
            all_hex_digits(s@.subrange(start as int, i as int)),
            hex_value(s@.subrange(start as int, i as int)) >= 0,
            !over ==> v == hex_value(s@.subrange(start as int, i as int)),
            over ==> hex_value(s@.subrange(start as int, i as int)) > u64::MAX,
        decreases s.len() - i,
    {
        let c = s[i];
        let ghost pre = s@.subrange(start as int, i as int);
        assert(s@.subrange(start as int, i + 1) =~= pre.push(c));
        let d: u64 = if '0' <= c && c <= '9' {
            (c as u32 - 48) as u64
        } else if 'A' <= c && c <= 'F' {
            (c as u32 - 55) as u64
        } else if 'a' <= c && c <= 'f' {
            (c as u32 - 87) as u64
        } else {
            assert(body[i - start] == c);
            assert(!is_hex_digit(body[i - start]));
            assert(!all_hex_digits(body));
            return None;
        };
        assert(is_hex_digit(c) && d == hex_digit_value(c) && d < 16);
        proof {
            lemma_hex_value_push(pre, c);
        }
        if !over {
            if v > (u64::MAX - d) / 16 {
                over = true;
                assert(v * 16 + d > u64::MAX) by (nonlinear_arith)
                    requires
                        v > (u64::MAX - d) / 16,
                        d < 16,
                ;
            } else {
                assert(v * 16 + d <= u64::MAX) by (nonlinear_arith)
                    requires
                        v <= (u64::MAX - d) / 16,
                        d < 16,
                ;
                v = v * 16 + d;
            }
        }
        proof {
            let nxt = s@.subrange(start as int, i + 1);
            assert forall|k: int| 0 <= k < nxt.len() implies is_hex_digit(#[trigger] nxt[k]) by {
                if k < pre.len() {
                    assert(nxt[k] == pre[k]);
                } else {
                    assert(nxt[k] == c);
                }
            }
        }
        i = i + 1;
    }
    proof {
        assert(s@.subrange(start as int, s@.len() as int) =~= body);
    }
    if over {
        None
    } else {
        Some(v)
    }
}

/// Why a hexadecimal byte string was refused.
#[derive(Clone, Copy, Debug, PartialEq, Eq, Structural)]
pub enum HexDecodeError {
    /// An odd number of bytes.
    OddLength,
    /// A pair that is not a base-16 byte.
    InvalidDigit,
    /// A well-formed string of the wrong length.
    WrongLength,
}

/// The value of the ASCII hexadecimal digit byte `b`, if it is one.
pub open spec fn hex_byte_value(b: u8) -> Option<int> {
    if 48 <= b <= 57 {
        Some(b - 48)
    } else if 65 <= b <= 70 {
        Some(b - 55)
    } else if 97 <= b <= 102 {
        Some(b - 87)
    } else {
        None
    }
}

/// The byte the `k`-th pair of `b` denotes, read as `u8::from_str_radix(_, 16)`
/// reads two characters: two digits, or `+` and one digit.
pub open spec fn pair_value(b: Seq<u8>, k: int) -> Option<u8> {
    let x = b[2 * k];
    let y = b[2 * k + 1];
    if x == 43 {
        match hex_byte_value(y) {
            Some(v) => Some(v as u8),
            None => None,
        }
    } else {
        match (hex_byte_value(x), hex_byte_value(y)) {
            (Some(a), Some(c)) => Some((a * 16 + c) as u8),
            _ => None,
        }
    }
}

/// Whether every pair of `b` denotes a byte.
pub open spec fn all_pairs_decode(b: Seq<u8>) -> bool {
    forall|k: int| 0 <= k < b.len() / 2 ==> (#[trigger] pair_value(b, k)) is Some
}

/// The bytes the pairs of `b` denote.
pub open spec fn decoded_pairs(b: Seq<u8>) -> Seq<u8> {
    Seq::new(b.len() / 2, |k: int| pair_value(b, k).unwrap())
}

/// Whether byte offset `k` of the UTF-8 bytes `b` starts a character (or ends the string).
pub open spec fn is_char_start(b: Seq<u8>, k: int) -> bool {
    k == b.len() || (0 <= k < b.len() && !(128 <= b[k] <= 191))
}

/// Whether the `k`-th pair of `b` starts and ends at character starts.
pub open spec fn pair_cut_ok(b: Seq<u8>, k: int) -> bool {
    is_char_start(b, 2 * k) && is_char_start(b, 2 * k + 2)
}

/// Whether the pairs before the `k`-th all denote bytes.
pub open spec fn prefix_decodes(b: Seq<u8>, k: int) -> bool {
    forall|j: int| 0 <= j < k ==> (#[trigger] pair_value(b, j)) is Some
}

/// Whether slicing the string into byte pairs, stopping at the first pair
/// that is not a byte, only ever cuts at character starts.
pub open spec fn pairs_sliceable(b: Seq<u8>) -> bool {
    b.len() % 2 == 0 ==> forall|k: int|
        0 <= k < b.len() / 2 && prefix_decodes(b, k) ==> #[trigger] pair_cut_ok(b, k)
}

fn hex_byte(b: u8) -> (r: Option<u8>)
    ensures
        match hex_byte_value(b) {
            Some(v) => r == Some(v as u8),
            None => r is None,
        },
{
    if 48 <= b && b <= 57 {
        Some(b - 48)
    } else if 65 <= b && b <= 70 {
        Some(b - 55)
    } else if 97 <= b && b <= 102 {
        Some(b - 87)
    } else {
        None
    }
}

fn decode_pair(x: u8, y: u8) -> (r: Option<u8>)
    ensures
        r == pair_value(seq![x, y], 0),
{
    if x == 43 {
        hex_byte(y)
    } else {
        match (hex_byte(x), hex_byte(y)) {
            (Some(a), Some(c)) => Some(a * 16 + c),
            _ => None,
        }
    }
}

/// Whether decoding `s` would cut a character in two: true exactly when
/// [`pairs_sliceable`] fails for its bytes.
pub fn hex_slicing_cuts_a_char(s: &str) -> (cuts: bool)
    ensures
        cuts == !pairs_sliceable(s.spec_bytes()),
{
    let b = s.as_bytes();
    let n = b.len();
    if n % 2 != 0 {
        return false;
    }
    let mut k: usize = 0;
    while k < n / 2
        invariant
            b@ == s.spec_bytes(),
            n == b@.len(),
            n % 2 == 0,
            k <= n / 2,
            prefix_decodes(b@, k as int),
            forall|j: int| 0 <= j < k ==> #[trigger] pair_cut_ok(b@, j),
        decreases n / 2 - k,
    {
        let at = 2 * k;
        let start_ok = !(128 <= b[at] && b[at] <= 191);
        let end_ok = at + 2 == n || !(128 <= b[at + 2] && b[at + 2] <= 191);
        if !(start_ok && end_ok) {
            assert(!pair_cut_ok(b@, k as int));
            return true;
        }
        assert(pair_cut_ok(b@, k as int));
        let p = decode_pair(b[at], b[at + 1]);
        assert(pair_value(seq![b@[2 * k], b@[2 * k + 1]], 0) == pair_value(b@, k as int));
        if p.is_none() {
            assert forall|kk: int| 0 <= kk < b@.len() / 2 && prefix_decodes(b@, kk)
                implies #[trigger] pair_cut_ok(b@, kk) by {
                if kk > k {
                    assert(pair_value(b@, k as int) is Some);
                }
            }
            return false;
        }
        assert(prefix_decodes(b@, k + 1)) by {
            assert forall|j: int| 0 <= j < k + 1 implies (#[trigger] pair_value(b@, j)) is Some by {
                if j < k {
                    assert(prefix_decodes(b@, k as int));
                }
            }
        }
        k = k + 1;
    }
    false
}

/// Decodes a string of hexadecimal byte pairs: an odd byte length is
/// `OddLength`, and a pair that is not a byte is `InvalidDigit`.
pub fn decode_hex(s: &str) -> (r: Result<Vec<u8>, HexDecodeError>)
    requires
        pairs_sliceable(s.spec_bytes()),
    ensures
        s.spec_bytes().len() % 2 != 0 ==> r == Err::<Vec<u8>, HexDecodeError>(HexDecodeError::OddLength),
        s.spec_bytes().len() % 2 == 0 && !all_pairs_decode(s.spec_bytes()) ==> r == Err::<
            Vec<u8>,
            HexDecodeError,
        >(HexDecodeError::InvalidDigit),
        s.spec_bytes().len() % 2 == 0 && all_pairs_decode(s.spec_bytes()) ==> r is Ok && r->Ok_0@
            == decoded_pairs(s.spec_bytes()),
{
    let b = s.as_bytes();
    let n = b.len();
    if n % 2 != 0 {
        return Err(HexDecodeError::OddLength);
    }
    let mut out: Vec<u8> = Vec::new();
    let mut k: usize = 0;
    while k < n / 2
        invariant
            b@ == s.spec_bytes(),
            n == b@.len(),
            n % 2 == 0,
            k <= n / 2,
            out@.len() == k,
            forall|j: int| 0 <= j < k ==> (#[trigger] pair_value(b@, j)) is Some,
            forall|j: int| 0 <= j < k ==> out@[j] == #[trigger] pair_value(b@, j).unwrap(),
        decreases n / 2 - k,
    {
        let p = decode_pair(b[2 * k], b[2 * k + 1]);
        assert(pair_value(seq![b@[2 * k], b@[2 * k + 1]], 0) == pair_value(b@, k as int));
        match p {
            Some(v) => {
                out.push(v);
            },
            None => {
                return Err(HexDecodeError::InvalidDigit);
            },
        }
        k = k + 1;
    }
    assert(out@ =~= decoded_pairs(b@));
    Ok(out)
}

/// Decodes exactly 32 bytes from 64 hexadecimal characters; a well-formed
/// string of another length is `WrongLength`.
pub fn decode_hex32(s: &str) -> (r: Result<[u8; 32], HexDecodeError>)
    requires
        pairs_sliceable(s.spec_bytes()),
    ensures
        s.spec_bytes().len() % 2 != 0 ==> r == Err::<[u8; 32], HexDecodeError>(HexDecodeError::OddLength),
        s.spec_bytes().len() % 2 == 0 && !all_pairs_decode(s.spec_bytes()) ==> r == Err::<
            [u8; 32],
            HexDecodeError,
        >(HexDecodeError::InvalidDigit),
        s.spec_bytes().len() % 2 == 0 && all_pairs_decode(s.spec_bytes()) && s.spec_bytes().len()
            != 64 ==> r == Err::<[u8; 32], HexDecodeError>(HexDecodeError::WrongLength),
        s.spec_bytes().len() == 64 && all_pairs_decode(s.spec_bytes()) ==> r is Ok && r->Ok_0@
            == decoded_pairs(s.spec_bytes()),
{
    let v = match decode_hex(s) {
        Ok(v) => v,
        Err(e) => {
            return Err(e);
        },
    };
    if v.len() != 32 {
        return Err(HexDecodeError::WrongLength);
    }
    let mut out = [0u8; 32];
    let mut i: usize = 0;
    while i < 32
        invariant
            v@.len() == 32,
            i <= 32,
            forall|j: int| 0 <= j < i ==> out@[j] == v@[j],
        decreases 32 - i,
    {
        out[i] = v[i];
        i = i + 1;
    }
    assert(out@ =~= v@);
    Ok(out)
}

} // verus!
