//! Byte-level text utilities: padding trim, NUL-terminated names,
//! little-endian integers, decimal rendering and decimal-text validation.

use vstd::prelude::*;

verus! {

/// Padding and whitespace bytes of a DBF field: space, tab, line feed,
/// carriage return, NUL.
pub open spec fn is_blank(b: u8) -> bool {
    b == 32 || b == 9 || b == 10 || b == 13 || b == 0
}

/// An ASCII decimal digit.
pub open spec fn is_digit(b: u8) -> bool {
    48 <= b && b <= 57
}

/// `s` without its trailing blank bytes.
pub open spec fn trim_end(s: Seq<u8>) -> Seq<u8>
    decreases s.len(),
{
    if s.len() == 0 {
        s
    } else if is_blank(s[s.len() - 1]) {
        trim_end(s.drop_last())
    } else {
        s
    }
}

/// `s` without its leading blank bytes.
pub open spec fn trim_start(s: Seq<u8>) -> Seq<u8>
    decreases s.len(),
{
    if s.len() == 0 {
        s
    } else if is_blank(s[0]) {
        trim_start(s.drop_first())
    } else {
        s
    }
}

/// `s` without leading and trailing blank bytes.
pub open spec fn trim(s: Seq<u8>) -> Seq<u8> {
    trim_start(trim_end(s))
}

/// The prefix of `s` before its first NUL byte (all of `s` if none).
pub open spec fn until_nul(s: Seq<u8>) -> Seq<u8>
    decreases s.len(),
{
    if s.len() == 0 {
        s
    } else if s[0] == 0 {
        Seq::empty()
    } else {
        seq![s[0]] + until_nul(s.drop_first())
    }
}

/// The unsigned value of two little-endian bytes at `i`.
pub open spec fn le16(s: Seq<u8>, i: int) -> int {
    s[i] + 256 * s[i + 1]
}

/// The unsigned value of four little-endian bytes at `i`.
pub open spec fn le32(s: Seq<u8>, i: int) -> int {
    s[i] + 256 * s[i + 1] + 65536 * s[i + 2] + 16777216 * s[i + 3]
}

/// The signed 32-bit value of four little-endian bytes (two's complement).
pub open spec fn i32_from_le(s: Seq<u8>) -> i32 {
    if le32(s, 0) < 0x8000_0000 {
        le32(s, 0) as i32
    } else {
        (le32(s, 0) - 0x1_0000_0000) as i32
    }
}

/// The decimal digits of `n`, most significant first, no leading zeros
/// (a single `0` for zero).
pub open spec fn dec_digits(n: nat) -> Seq<u8>
    decreases n,
{
    if n < 10 {
        seq![(48 + n) as u8]
    } else {
        dec_digits(n / 10).push((48 + n % 10) as u8)
    }
}

/// The decimal text of `i`: a minus sign before the digits when negative.
pub open spec fn int_text(i: int) -> Seq<u8> {
    if i < 0 {
        seq![45u8] + dec_digits((-i) as nat)
    } else {
        dec_digits(i as nat)
    }
}

/// How many `.` bytes `s` holds.
pub open spec fn count_dots(s: Seq<u8>) -> nat
    decreases s.len(),
{
    if s.len() == 0 {
        0
    } else {
        count_dots(s.drop_last()) + (if s.last() == 46 { 1nat } else { 0nat })
    }
}

/// How many ASCII digits `s` holds.
pub open spec fn count_digits(s: Seq<u8>) -> nat
    decreases s.len(),
{
    if s.len() == 0 {
        0
    } else {
        count_digits(s.drop_last()) + (if is_digit(s.last()) { 1nat } else { 0nat })
    }
}

/// `s` with one leading `+` or `-` removed.
pub open spec fn strip_sign(s: Seq<u8>) -> Seq<u8> {
    if s.len() > 0 && (s[0] == 43 || s[0] == 45) {
        s.drop_first()
    } else {
        s
    }
}

/// A decimal number in text: an optional sign, then digits and at most one
/// `.`, with at least one digit.
pub open spec fn is_decimal_text(s: Seq<u8>) -> bool {
    let body = strip_sign(s);
    &&& forall|i: int| 0 <= i < body.len() ==> is_digit(body[i]) || body[i] == 46
    &&& count_dots(body) <= 1
    &&& count_digits(body) >= 1
}

/// Exec test for [`is_blank`].
pub fn blank(b: u8) -> (r: bool)
    ensures
        r == is_blank(b),
{
    b == 32 || b == 9 || b == 10 || b == 13 || b == 0
}

/// Copies `src[a..b]` into a fresh vector.
pub fn copy_range(src: &Vec<u8>, a: usize, b: usize) -> (r: Vec<u8>)
    requires
        a <= b <= src@.len(),
    ensures
        r@ == src@.subrange(a as int, b as int),
{
    let mut out: Vec<u8> = Vec::new();
    let mut i: usize = a;
    while i < b
        invariant
            a <= i <= b <= src@.len(),
            out@ == src@.subrange(a as int, i as int),
        decreases b - i,
    {
        out.push(src[i]);
        i = i + 1;
        assert(out@ =~= src@.subrange(a as int, i as int));
    }
    out
}

proof fn lemma_trim_end_take(s: Seq<u8>, e: int)
    requires
        0 <= e <= s.len(),
        forall|k: int| e <= k < s.len() ==> is_blank(s[k]),
        e > 0 ==> !is_blank(s[e - 1]),
    ensures
        trim_end(s) == s.take(e),
    decreases s.len(),
{
    if e == s.len() {
        if s.len() == 0 {
            assert(s.take(e) =~= s);
        } else {
            assert(trim_end(s) == s);
            assert(s.take(e) =~= s);
        }
    } else {
        assert(is_blank(s[s.len() - 1]));
        lemma_trim_end_take(s.drop_last(), e);
        assert(s.drop_last().take(e) =~= s.take(e));
    }
}

proof fn lemma_trim_start_skip(s: Seq<u8>, b: int)
    requires
        0 <= b <= s.len(),
        forall|k: int| 0 <= k < b ==> is_blank(s[k]),
        b < s.len() ==> !is_blank(s[b]),
    ensures
        trim_start(s) == s.subrange(b, s.len() as int),
    decreases b,
{
    if b == 0 {
        assert(s.subrange(0, s.len() as int) =~= s);
    } else {
        assert(is_blank(s[0]));
        lemma_trim_start_skip(s.drop_first(), b - 1);
        assert(s.drop_first().subrange(b - 1, s.drop_first().len() as int) =~= s.subrange(
            b,
            s.len() as int,
        ));
    }
}

/// `v` without its trailing blank bytes.
pub fn trim_end_bytes(v: &Vec<u8>) -> (r: Vec<u8>)
    ensures
        r@ == trim_end(v@),
{
    let mut e: usize = v.len();
    while e > 0 && blank(v[e - 1])
        invariant
            e <= v@.len(),
            forall|k: int| e <= k < v@.len() ==> is_blank(v@[k]),
        decreases e,
    {
        e = e - 1;
    }
    proof {
        lemma_trim_end_take(v@, e as int);
    }
    copy_range(v, 0, e)
}

/// `v` without leading and trailing blank bytes.
pub fn trim_bytes(v: &Vec<u8>) -> (r: Vec<u8>)
    ensures
        r@ == trim(v@),
{
    let mut e: usize = v.len();
    while e > 0 && blank(v[e - 1])
        invariant
            e <= v@.len(),
            forall|k: int| e <= k < v@.len() ==> is_blank(v@[k]),
        decreases e,
    {
        e = e - 1;
    }
    proof {
        lemma_trim_end_take(v@, e as int);
    }
    let ghost t = trim_end(v@);
    let mut b: usize = 0;
    while b < e && blank(v[b])
        invariant
            b <= e <= v@.len(),
            t == v@.take(e as int),
            forall|k: int| 0 <= k < b ==> is_blank(v@[k]),
        decreases e - b,
    {
        b = b + 1;
    }
    proof {
        assert(forall|k: int| 0 <= k < b ==> is_blank(t[k]));
        assert(b < t.len() ==> !is_blank(t[b as int]));
        lemma_trim_start_skip(t, b as int);
        assert(t.subrange(b as int, t.len() as int) =~= v@.subrange(b as int, e as int));
    }
    copy_range(v, b, e)
}

proof fn lemma_until_nul_take(s: Seq<u8>, k: int)
    requires
        0 <= k <= s.len(),
        forall|j: int| 0 <= j < k ==> s[j] != 0,
        k < s.len() ==> s[k] == 0,
    ensures
        until_nul(s) == s.take(k),
    decreases k,
{
    if k == 0 {
        assert(s.take(0) =~= Seq::<u8>::empty());
        if s.len() > 0 {
            assert(s[0] == 0);
        } else {
            assert(until_nul(s) == s);
            assert(s =~= s.take(0));
        }
    } else {
        assert(s[0] != 0);
        lemma_until_nul_take(s.drop_first(), k - 1);
        assert(seq![s[0]] + s.drop_first().take(k - 1) =~= s.take(k));
    }
}

/// The prefix of `v` before its first NUL byte.
pub fn take_until_nul(v: &Vec<u8>) -> (r: Vec<u8>)
    ensures
        r@ == until_nul(v@),
{
    let mut k: usize = 0;
    while k < v.len() && v[k] != 0
        invariant
            k <= v@.len(),
            forall|j: int| 0 <= j < k ==> v@[j] != 0,
        decreases v@.len() - k,
    {
        k = k + 1;
    }
    proof {
        lemma_until_nul_take(v@, k as int);
    }
    copy_range(v, 0, k)
}

/// Reads two little-endian bytes at `i`.
pub fn read_le16(v: &Vec<u8>, i: usize) -> (r: u16)
    requires
        i + 2 <= v@.len(),
    ensures
        r as int == le16(v@, i as int),
{
    let n: usize = v.len();
    assert(i + 2 <= n);
    (v[i] as u16) + 256 * (v[i + 1] as u16)
}

/// Reads four little-endian bytes at `i` as an unsigned value.
pub fn read_le32(v: &Vec<u8>, i: usize) -> (r: u32)
    requires
        i + 4 <= v@.len(),
    ensures
        r as int == le32(v@, i as int),
{
    let n: usize = v.len();
    assert(i + 4 <= n);
    (v[i] as u32) + 256 * (v[i + 1] as u32) + 65536 * (v[i + 2] as u32) + 16777216 * (v[i
        + 3] as u32)
}

/// Reads four little-endian bytes at `i` as a signed 32-bit value.
pub fn read_i32_le(v: &Vec<u8>, i: usize) -> (r: i32)
    requires
        i + 4 <= v@.len(),
    ensures
        r == i32_from_le(v@.subrange(i as int, i as int + 4)),
{
    let ghost s = v@.subrange(i as int, i as int + 4);
    let u: u32 = read_le32(v, i);
    proof {
        assert(le32(s, 0) == le32(v@, i as int));
    }
    if u < 0x8000_0000 {
        u as i32
    } else {
        let m: u32 = u32::MAX - u;
        -(m as i32) - 1
    }
}

/// Appends the decimal digits of `n`.
pub fn push_decimal(out: &mut Vec<u8>, n: u32)
    ensures
        final(out)@ == old(out)@ + dec_digits(n as nat),
    decreases n,
{
    if n < 10 {
        out.push((48 + n) as u8);
        assert(out@ =~= old(out)@ + dec_digits(n as nat));
    } else {
        push_decimal(out, n / 10);
        out.push((48 + (n % 10)) as u8);
        assert(out@ =~= old(out)@ + dec_digits(n as nat));
    }
}

/// Appends the decimal text of `i`, minus sign included when negative.
pub fn push_i32_text(out: &mut Vec<u8>, i: i32)
    ensures
        final(out)@ == old(out)@ + int_text(i as int),
{
    if i >= 0 {
        push_decimal(out, i as u32);
    } else {
        out.push(45);
        let wide: i64 = -(i as i64);
        assert(0 < wide <= 0x8000_0000);
        push_decimal(out, wide as u32);
        assert(wide as u32 as nat == (-(i as int)) as nat);
        assert(out@ =~= old(out)@ + int_text(i as int));
    }
}

/// Exec test for [`is_decimal_text`].
pub fn is_decimal_bytes(v: &Vec<u8>) -> (r: bool)
    ensures
        r == is_decimal_text(v@),
{
    let ghost body = strip_sign(v@);
    let start: usize = if v.len() > 0 && (v[0] == 43 || v[0] == 45) {
        1
    } else {
        0
    };
    proof {
        assert(body =~= v@.subrange(start as int, v@.len() as int));
    }
    let mut i: usize = start;
    let mut dots: usize = 0;
    let mut digits: usize = 0;
    let mut shape_ok: bool = true;
    while i < v.len()
        invariant
            start <= i <= v@.len(),
            body == v@.subrange(start as int, v@.len() as int),
            dots == count_dots(body.take(i - start)),
            digits == count_digits(body.take(i - start)),
            dots <= i,
            digits <= i,
            shape_ok == (forall|j: int|
                0 <= j < i - start ==> is_digit(body[j]) || body[j] == 46),
        decreases v@.len() - i,
    {
        let ghost pre = body.take(i - start);
        let b: u8 = v[i];
        proof {
            assert(body[i - start] == b);
            assert(body.take(i + 1 - start).drop_last() =~= pre);
        }
        if b == 46 {
            dots = dots + 1;
        } else if 48 <= b && b <= 57 {
            digits = digits + 1;
        } else {
            shape_ok = false;
        }
        i = i + 1;
    }
    proof {
        assert(body.take(v@.len() - start) =~= body);
    }
    shape_ok && dots <= 1 && digits >= 1
}

} // verus!
