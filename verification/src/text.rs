//! Character-level helpers: building strings one character at a time and a
//! fixed-width hexadecimal codec used by the token wire format and by the
//! signing input.

use vstd::prelude::*;
use vstd::string::StrSliceExecFns;

verus! {

/// Relies on std's `String::push`: appends the given character to the end of
/// the string.
#[verifier::external_body]
pub fn push_char(s: &mut String, c: char)
    ensures
        final(s)@ == old(s)@.push(c),
{
    s.push(c);
}

/// Character-by-character equality of two text slices.
pub fn str_eq(a: &str, b: &str) -> (r: bool)
    ensures
        r == (a@ == b@),
{
    let alen = a.unicode_len();
    let blen = b.unicode_len();
    if alen != blen {
        return false;
    }
    let mut i: usize = 0;
    while i < alen
        invariant
            alen == a@.len(),
            blen == b@.len(),
            alen == blen,
            0 <= i <= alen,
            forall|j: int| 0 <= j < i ==> a@[j] == b@[j],
        decreases alen - i,
    {
        if a.get_char(i) != b.get_char(i) {
            return false;
        }
        i = i + 1;
    }
    proof {
        assert(a@ =~= b@);
    }
    true
}

/// The lower-case hexadecimal digit for a value below sixteen.
pub open spec fn nib_char(v: u8) -> char {
    if v == 0 {
        '0'
    } else if v == 1 {
        '1'
    } else if v == 2 {
        '2'
    } else if v == 3 {
        '3'
    } else if v == 4 {
        '4'
    } else if v == 5 {
        '5'
    } else if v == 6 {
        '6'
    } else if v == 7 {
        '7'
    } else if v == 8 {
        '8'
    } else if v == 9 {
        '9'
    } else if v == 10 {
        'a'
    } else if v == 11 {
        'b'
    } else if v == 12 {
        'c'
    } else if v == 13 {
        'd'
    } else if v == 14 {
        'e'
    } else {
        'f'
    }
}

/// Whether a character is a lower-case hexadecimal digit.
pub open spec fn is_nib(c: char) -> bool {
    c == '0' || c == '1' || c == '2' || c == '3' || c == '4' || c == '5' || c == '6' || c == '7'
        || c == '8' || c == '9' || c == 'a' || c == 'b' || c == 'c' || c == 'd' || c == 'e'
        || c == 'f'
}

/// The value of a lower-case hexadecimal digit (zero for any other character).
pub open spec fn nib_val(c: char) -> u8 {
    if c == '1' {
        1
    } else if c == '2' {
        2
    } else if c == '3' {
        3
    } else if c == '4' {
        4
    } else if c == '5' {
        5
    } else if c == '6' {
        6
    } else if c == '7' {
        7
    } else if c == '8' {
        8
    } else if c == '9' {
        9
    } else if c == 'a' {
        10
    } else if c == 'b' {
        11
    } else if c == 'c' {
        12
    } else if c == 'd' {
        13
    } else if c == 'e' {
        14
    } else if c == 'f' {
        15
    } else {
        0
    }
}

/// The fixed-width lower-case hexadecimal rendering of a non-negative number,
/// most significant digit first.
pub open spec fn hex_str(n: int, width: nat) -> Seq<char>
    decreases width,
{
    if width == 0 {
        Seq::empty()
    } else {
        hex_str(n / 16, (width - 1) as nat).push(nib_char((n % 16) as u8))
    }
}

/// The number a sequence of hexadecimal digits denotes, most significant
/// digit first.
pub open spec fn hex_value(s: Seq<char>) -> int
    decreases s.len(),
{
    if s.len() == 0 {
        0
    } else {
        hex_value(s.drop_last()) * 16 + nib_val(s.last())
    }
}

/// Whether every character of the sequence is a hexadecimal digit.
pub open spec fn all_nibs(s: Seq<char>) -> bool {
    forall|i: int| 0 <= i < s.len() ==> is_nib(s[i])
}

/// Sixteen to the given power.
pub open spec fn pow16(w: nat) -> int
    decreases w,
{
    if w == 0 {
        1
    } else {
        16 * pow16((w - 1) as nat)
    }
}

pub proof fn lemma_hex_str_len(n: int, width: nat)
    ensures
        hex_str(n, width).len() == width,
    decreases width,
{
    if width > 0 {
        lemma_hex_str_len(n / 16, (width - 1) as nat);
    }
}

pub proof fn lemma_hex_str_nibs(n: int, width: nat)
    requires
        n >= 0,
    ensures
        all_nibs(hex_str(n, width)),
    decreases width,
{
    if width > 0 {
        lemma_hex_str_nibs(n / 16, (width - 1) as nat);
        let inner = hex_str(n / 16, (width - 1) as nat);
        let d = (n % 16) as u8;
        assert(0 <= n % 16 < 16);
        assert(is_nib(nib_char(d)));
        assert(forall|i: int|
            0 <= i < hex_str(n, width).len() ==> is_nib(hex_str(n, width)[i])) by {
            assert(hex_str(n, width) == inner.push(nib_char(d)));
        }
    }
}

/// Rendering a number in `width` digits and reading the digits back yields
/// the number, provided it fits in that many digits.
pub proof fn lemma_hex_round_trip(n: int, width: nat)
    requires
        0 <= n < pow16(width),
    ensures
        hex_value(hex_str(n, width)) == n,
    decreases width,
{
    if width == 0 {
        assert(n == 0);
    } else {
        let q = n / 16;
        let r = n % 16;
        vstd::arithmetic::div_mod::lemma_fundamental_div_mod(n, 16);
        assert(q < pow16((width - 1) as nat)) by (nonlinear_arith)
            requires
                n >= 0,
                pow16((width - 1) as nat) > 0,
                n < 16 * pow16((width - 1) as nat),
                q == n / 16,
        ;
        assert(q >= 0) by (nonlinear_arith)
            requires
                n >= 0,
                q == n / 16,
        ;
        lemma_hex_round_trip(q, (width - 1) as nat);
        let inner = hex_str(q, (width - 1) as nat);
        let d = (n % 16) as u8;
        assert(hex_str(n, width) == inner.push(nib_char(d)));
        assert(inner.push(nib_char(d)).drop_last() =~= inner);
        assert(0 <= r < 16);
        assert(nib_val(nib_char(d)) == d);
        assert(hex_value(hex_str(n, width)) == hex_value(inner) * 16 + d);
    }
}

pub proof fn lemma_pow16_positive(w: nat)
    ensures
        pow16(w) >= 1,
    decreases w,
{
    if w > 0 {
        lemma_pow16_positive((w - 1) as nat);
    }
}

/// Every value a sequence of digits can denote is bounded by the digit count.
pub proof fn lemma_hex_value_bound(s: Seq<char>)
    ensures
        0 <= hex_value(s) < pow16(s.len()),
    decreases s.len(),
{
    if s.len() == 0 {
    } else {
        lemma_hex_value_bound(s.drop_last());
        let p = pow16((s.len() - 1) as nat);
        let v = hex_value(s.drop_last());
        assert(nib_val(s.last()) < 16);
        assert(v * 16 + nib_val(s.last()) < 16 * p) by (nonlinear_arith)
            requires
                0 <= v < p,
                nib_val(s.last()) < 16,
        ;
        assert(v * 16 >= 0) by (nonlinear_arith)
            requires
                v >= 0,
        ;
    }
}

/// The exec counterpart of [`nib_char`].
pub fn nib_char_of(v: u8) -> (c: char)
    requires
        v < 16,
    ensures
        c == nib_char(v),
{
    match v {
        0 => '0',
        1 => '1',
        2 => '2',
        3 => '3',
        4 => '4',
        5 => '5',
        6 => '6',
        7 => '7',
        8 => '8',
        9 => '9',
        10 => 'a',
        11 => 'b',
        12 => 'c',
        13 => 'd',
        14 => 'e',
        _ => 'f',
    }
}

/// The exec counterpart of [`nib_val`]: `None` on a character that is no
/// hexadecimal digit.
pub fn nib_val_of(c: char) -> (r: Option<u8>)
    ensures
        match r {
            Some(v) => is_nib(c) && v == nib_val(c) && v < 16,
            None => !is_nib(c),
        },
{
    match c {
        '0' => Some(0),
        '1' => Some(1),
        '2' => Some(2),
        '3' => Some(3),
        '4' => Some(4),
        '5' => Some(5),
        '6' => Some(6),
        '7' => Some(7),
        '8' => Some(8),
        '9' => Some(9),
        'a' => Some(10),
        'b' => Some(11),
        'c' => Some(12),
        'd' => Some(13),
        'e' => Some(14),
        'f' => Some(15),
        _ => None,
    }
}

/// Appends the fixed-width hexadecimal rendering of `n` to `out`.
pub fn hex_extend(out: &mut String, n: u64, width: usize)
    ensures
        final(out)@ == old(out)@ + hex_str(n as int, width as nat),
    decreases width,
{
    if width == 0 {
        assert(old(out)@ + hex_str(n as int, 0) =~= old(out)@);
    } else {
        hex_extend(out, n / 16, width - 1);
        let d: u8 = (n % 16) as u8;
        push_char(out, nib_char_of(d));
        assert(old(out)@ + hex_str(n as int, width as nat) =~= (old(out)@ + hex_str(
            n as int / 16,
            (width - 1) as nat,
        )).push(nib_char(d)));
    }
}

/// Reads `width` hexadecimal digits of `s` starting at `pos`; `None` where a
/// character is no digit.
pub fn parse_hex(s: &str, pos: usize, width: usize, len: usize) -> (r: Option<u64>)
    requires
        len == s@.len(),
        pos + width <= len,
        width <= 16,
    ensures
        match r {
            Some(v) => all_nibs(s@.subrange(pos as int, pos + width)) && v == hex_value(
                s@.subrange(pos as int, pos + width),
            ),
            None => !all_nibs(s@.subrange(pos as int, pos + width)),
        },
{
    let mut acc: u64 = 0;
    let mut i: usize = 0;
    proof {
        assert(s@.subrange(pos as int, pos as int) =~= Seq::empty());
        lemma_pow16_positive(0);
    }
    while i < width
        invariant
            len == s@.len(),
            pos + width <= len,
            width <= 16,
            0 <= i <= width,
            all_nibs(s@.subrange(pos as int, pos + i)),
            acc == hex_value(s@.subrange(pos as int, pos + i)),
            0 <= acc < pow16(i as nat),
        decreases width - i,
    {
        let c = s.get_char(pos + i);
        match nib_val_of(c) {
            Some(v) => {
                proof {
                    let prev = s@.subrange(pos as int, pos + i);
                    let cur = s@.subrange(pos as int, pos + i + 1);
                    assert(cur.drop_last() =~= prev);
                    assert(cur.last() == c);
                    lemma_pow16_positive(i as nat);
                    assert(pow16((i + 1) as nat) == 16 * pow16(i as nat));
                    assert(acc * 16 + v < 16 * pow16(i as nat) && acc * 16 >= 0)
                        by (nonlinear_arith)
                        requires
                            0 <= acc < pow16(i as nat),
                            v < 16,
                    ;
                    reveal_with_fuel(pow16, 17);
                    assert(pow16(16) == 0x1_0000_0000_0000_0000);
                    assert(pow16(i as nat) <= pow16(15)) by {
                        lemma_pow16_monotone(i as nat, 15);
                    }
                }
                acc = acc * 16 + (v as u64);
                i = i + 1;
            },
            None => {
                proof {
                    assert(s@.subrange(pos as int, pos + width)[i as int] == c);
                }
                return None;
            },
        }
    }
    proof {
        assert(s@.subrange(pos as int, pos + i) =~= s@.subrange(pos as int, pos + width));
    }
    Some(acc)
}

pub proof fn lemma_pow16_values()
    ensures
        pow16(2) == 0x100,
        pow16(16) == 0x1_0000_0000_0000_0000,
{
    reveal_with_fuel(pow16, 17);
}

pub proof fn lemma_pow16_monotone(a: nat, b: nat)
    requires
        a <= b,
    ensures
        pow16(a) <= pow16(b),
    decreases b,
{
    if a < b {
        lemma_pow16_monotone(a, (b - 1) as nat);
        lemma_pow16_positive((b - 1) as nat);
    }
}

} // verus!
