//! Byte strings: the text of Go, which need not be UTF-8.

use vstd::prelude::*;
use vstd::string::StringSliceAdditionalSpecFns;

use crate::sort::SortKey;

verus! {

/// The bytes of a literal.
pub open spec fn lit(s: &str) -> Seq<u8> {
    s.spec_bytes()
}

/// The bytes of plain text are its characters.
pub proof fn lemma_plain_text(s: &str)
    requires
        vstd::utf8::is_ascii_chars(s@),
    ensures
        lit(s) == Seq::new(s@.len(), |i: int| s@[i] as u8),
{
    vstd::utf8::is_ascii_chars_encode_utf8(s@);
    assert(lit(s) =~= Seq::new(s@.len(), |i: int| s@[i] as u8));
}

pub fn text(s: &str) -> (r: Vec<u8>)
    ensures
        r@ == lit(s),
{
    copy_bytes(s.as_bytes())
}

pub fn copy_bytes(s: &[u8]) -> (r: Vec<u8>)
    ensures
        r@ == s@,
{
    let mut out: Vec<u8> = Vec::new();
    append(&mut out, s);
    assert(out@ =~= s@);
    out
}

pub fn append(out: &mut Vec<u8>, src: &[u8])
    ensures
        final(out)@ == old(out)@ + src@,
{
    let mut i: usize = 0;
    assert(src@.subrange(0, 0) =~= Seq::empty());
    while i < src.len()
        invariant
            i <= src.len(),
            out@ == old(out)@ + src@.subrange(0, i as int),
        decreases src.len() - i,
    {
        out.push(src[i]);
        i = i + 1;
        assert(src@.subrange(0, i as int) =~= src@.subrange(0, i - 1).push(src@[i - 1]));
    }
    assert(src@.subrange(0, i as int) =~= src@);
}

pub fn concat(a: &[u8], b: &[u8]) -> (r: Vec<u8>)
    ensures
        r@ == a@ + b@,
{
    let mut out = copy_bytes(a);
    append(&mut out, b);
    out
}

pub fn same_bytes(a: &[u8], b: &[u8]) -> (r: bool)
    ensures
        r == (a@ == b@),
{
    if a.len() != b.len() {
        return false;
    }
    let mut i: usize = 0;
    while i < a.len()
        invariant
            i <= a.len(),
            a.len() == b.len(),
            forall|k: int| 0 <= k < i ==> a@[k] == b@[k],
        decreases a.len() - i,
    {
        if a[i] != b[i] {
            return false;
        }
        i = i + 1;
    }
    assert(a@ =~= b@);
    true
}

/// `path` as the kernel wants it: ended by a NUL byte.
pub open spec fn c_path(path: Seq<u8>) -> Seq<u8> {
    path.push(0)
}

pub fn c_string(path: &Vec<u8>) -> (r: Vec<u8>)
    ensures
        r@ == c_path(path@),
{
    let mut out = copy_bytes(path.as_slice());
    out.push(0);
    out
}

/// Bytes before the first NUL, or all of them.
pub open spec fn until_nul(s: Seq<u8>) -> Seq<u8>
    decreases s.len(),
{
    if s.len() == 0 || s[0] == 0 {
        Seq::empty()
    } else {
        seq![s[0]] + until_nul(s.subrange(1, s.len() as int))
    }
}

pub proof fn lemma_until_nul(s: Seq<u8>, n: int)
    requires
        0 <= n <= s.len(),
        forall|i: int| 0 <= i < n ==> #[trigger] s[i] != 0,
        n < s.len() ==> s[n] == 0,
    ensures
        until_nul(s) == s.subrange(0, n),
    decreases s.len(),
{
    if n > 0 {
        let t = s.subrange(1, s.len() as int);
        assert forall|i: int| 0 <= i < n - 1 implies #[trigger] t[i] != 0 by {
            assert(t[i] == s[i + 1]);
        }
        lemma_until_nul(t, n - 1);
        assert(seq![s[0]] + t.subrange(0, n - 1) =~= s.subrange(0, n));
    } else {
        assert(s.subrange(0, 0) =~= Seq::empty());
    }
}

/// The bytes of `buf[lo..hi)` before the first NUL.
pub fn cut_at_nul(buf: &[u8], lo: usize, hi: usize) -> (r: Vec<u8>)
    requires
        lo <= hi <= buf.len(),
    ensures
        r@ == until_nul(buf@.subrange(lo as int, hi as int)),
{
    let mut out: Vec<u8> = Vec::new();
    let mut i: usize = lo;
    let ghost s = buf@.subrange(lo as int, hi as int);
    while i < hi && buf[i] != 0
        invariant
            lo <= i <= hi <= buf.len(),
            s == buf@.subrange(lo as int, hi as int),
            out@ == s.subrange(0, i - lo),
            forall|k: int| 0 <= k < i - lo ==> #[trigger] s[k] != 0,
        decreases hi - i,
    {
        out.push(buf[i]);
        i = i + 1;
        assert(out@ =~= s.subrange(0, i - lo));
    }
    proof {
        lemma_until_nul(s, i - lo);
    }
    out
}

// ---- encoding ----

/// Length of the UTF-8 scalar at `i`, or zero when none is there.
fn scalar_len(b: &[u8], i: usize) -> (n: usize)
    requires
        i < b.len(),
    ensures
        ({
            let s = b@.subrange(i as int, b@.len() as int);
            if vstd::utf8::valid_first_scalar(s) {
                n == vstd::utf8::length_of_first_scalar(s) && 0 < n <= b.len() - i
            } else {
                n == 0
            }
        }),
{
    let ghost s = b@.subrange(i as int, b@.len() as int);
    let left: usize = b.len() - i;
    let b0: u8 = b[i];
    assert(s[0] == b0);
    if b0 < 0x80 {
        assert((b0 & 0x7f) < 0x80) by (bit_vector);
        return 1;
    }
    if b0 < 0xc0 || b0 > 0xf7 || left < 2 {
        return 0;
    }
    let b1: u8 = b[i + 1];
    assert(s[1] == b1);
    if b1 < 0x80 || b1 > 0xbf {
        return 0;
    }
    if b0 < 0xe0 {
        let c: u32 = (((b0 & 0x1f) as u32) << 6) | ((b1 & 0x3f) as u32);
        assert(c < 0x800) by (bit_vector)
            requires
                c == (((b0 & 0x1f) as u32) << 6) | ((b1 & 0x3f) as u32),
        ;
        return if c >= 0x80 {
            2
        } else {
            0
        };
    }
    if left < 3 {
        return 0;
    }
    let b2: u8 = b[i + 2];
    assert(s[2] == b2);
    if b2 < 0x80 || b2 > 0xbf {
        return 0;
    }
    if b0 < 0xf0 {
        let c: u32 = (((b0 & 0x0f) as u32) << 12) | (((b1 & 0x3f) as u32) << 6) | ((b2
            & 0x3f) as u32);
        return if c >= 0x800 && !(0xd800 <= c && c <= 0xdfff) {
            3
        } else {
            0
        };
    }
    if left < 4 {
        return 0;
    }
    let b3: u8 = b[i + 3];
    assert(s[3] == b3);
    if b3 < 0x80 || b3 > 0xbf {
        return 0;
    }
    let c: u32 = (((b0 & 0x07) as u32) << 18) | (((b1 & 0x3f) as u32) << 12) | (((b2
        & 0x3f) as u32) << 6) | ((b3 & 0x3f) as u32);
    if 0x10000 <= c && c <= 0x10ffff {
        4
    } else {
        0
    }
}

/// Whether the bytes are UTF-8.
pub fn is_utf8(b: &[u8]) -> (r: bool)
    ensures
        r == vstd::utf8::valid_utf8(b@),
{
    let mut i: usize = 0;
    assert(b@.subrange(0, b@.len() as int) =~= b@);
    while i < b.len()
        invariant
            i <= b.len(),
            vstd::utf8::valid_utf8(b@) == vstd::utf8::valid_utf8(
                b@.subrange(i as int, b@.len() as int),
            ),
        decreases b.len() - i,
    {
        let ghost s = b@.subrange(i as int, b@.len() as int);
        let n: usize = scalar_len(b, i);
        if n == 0 {
            return false;
        }
        assert(s.subrange(n as int, s.len() as int) =~= b@.subrange(i + n, b@.len() as int));
        i = i + n;
    }
    true
}

// ---- numbers ----

/// Decimal digits of a natural number.
pub open spec fn dec_nat(n: nat) -> Seq<u8>
    decreases n,
{
    if n < 10 {
        seq![(48 + n) as u8]
    } else {
        dec_nat(n / 10).push((48 + n % 10) as u8)
    }
}

/// Decimal text of an integer.
pub open spec fn dec(x: int) -> Seq<u8> {
    if x < 0 {
        seq![45u8] + dec_nat((-x) as nat)
    } else {
        dec_nat(x as nat)
    }
}

pub fn utoa(n: u64) -> (r: Vec<u8>)
    ensures
        r@ == dec_nat(n as nat),
    decreases n,
{
    if n < 10 {
        let mut v: Vec<u8> = Vec::new();
        v.push(48 + n as u8);
        assert(v@ =~= dec_nat(n as nat));
        v
    } else {
        let mut v = utoa(n / 10);
        v.push(48 + (n % 10) as u8);
        v
    }
}

pub fn itoa(x: i64) -> (r: Vec<u8>)
    ensures
        r@ == dec(x as int),
{
    if x >= 0 {
        return utoa(x as u64);
    }
    let mut out: Vec<u8> = Vec::new();
    out.push(45);
    let m: u64 = if x == i64::MIN {
        0x8000_0000_0000_0000
    } else {
        (-x) as u64
    };
    let digits = utoa(m);
    append(&mut out, digits.as_slice());
    assert(out@ =~= seq![45u8] + digits@);
    out
}

/// The number that decimal digits denote, or nothing when `s` is empty or
/// holds another character.
pub open spec fn digits_value(s: Seq<u8>) -> Option<nat>
    decreases s.len(),
{
    if s.len() == 0 {
        None
    } else if s.last() < 48 || s.last() > 57 {
        None
    } else if s.len() == 1 {
        Some((s.last() - 48) as nat)
    } else {
        match digits_value(s.drop_last()) {
            None => None,
            Some(v) => Some((10 * v + (s.last() - 48)) as nat),
        }
    }
}

/// The integer that a text denotes: digits, after an optional sign.
pub open spec fn int_value(s: Seq<u8>) -> Option<int> {
    if s.len() > 0 && (s[0] == 43 || s[0] == 45) {
        match digits_value(s.subrange(1, s.len() as int)) {
            None => None,
            Some(v) => Some(if s[0] == 45 {
                -(v as int)
            } else {
                v as int
            }),
        }
    } else {
        match digits_value(s) {
            None => None,
            Some(v) => Some(v as int),
        }
    }
}

/// Why a text is no number.
#[derive(Clone, Copy, Debug, PartialEq, Eq, Structural)]
pub enum NumError {
    Syntax,
    Range,
}

/// Saturated digits: everything above the limit is the limit.
fn parse_digits(s: &[u8], from: usize) -> (r: Option<u64>)
    requires
        from <= s.len(),
    ensures
        match digits_value(s@.subrange(from as int, s@.len() as int)) {
            None => r is None,
            Some(v) => r is Some && (if v <= 0x8000_0000_0000_0000 {
                r->0 == v
            } else {
                r->0 > 0x8000_0000_0000_0000
            }),
        },
{
    let ghost t = s@.subrange(from as int, s@.len() as int);
    if from == s.len() {
        return None;
    }
    let mut i: usize = from;
    let mut v: u64 = 0;
    while i < s.len()
        invariant
            from <= i <= s.len(),
            from < s.len(),
            t == s@.subrange(from as int, s@.len() as int),
            v <= 0x9000_0000_0000_0000,
            i == from ==> v == 0,
            i > from ==> digits_value(t.subrange(0, i - from)) is Some && (if digits_value(
                t.subrange(0, i - from),
            )->0 <= 0x8000_0000_0000_0000 {
                v == digits_value(t.subrange(0, i - from))->0
            } else {
                v > 0x8000_0000_0000_0000
            }),
        decreases s.len() - i,
    {
        let ghost head = t.subrange(0, i + 1 - from);
        assert(head.drop_last() =~= t.subrange(0, i - from));
        assert(head.last() == s@[i as int]);
        if s[i] < 48 || s[i] > 57 {
            proof {
                lemma_bad_digit(t, i - from);
            }
            return None;
        }
        let d: u64 = (s[i] - 48) as u64;
        if v > 0x0fff_ffff_ffff_ffff {
            v = 0x9000_0000_0000_0000;
        } else {
            v = 10 * v + d;
            if v > 0x9000_0000_0000_0000 {
                v = 0x9000_0000_0000_0000;
            }
        }
        i = i + 1;
    }
    assert(t.subrange(0, i - from) =~= t);
    Some(v)
}

proof fn lemma_bad_digit(t: Seq<u8>, k: int)
    requires
        0 <= k < t.len(),
        t[k] < 48 || t[k] > 57,
    ensures
        digits_value(t) is None,
    decreases t.len(),
{
    if k < t.len() - 1 {
        lemma_bad_digit(t.drop_last(), k);
    }
}

/// The integer of a decimal text that fits 64 bits.
pub fn atoi(s: &[u8]) -> (r: Result<i64, NumError>)
    ensures
        match int_value(s@) {
            None => r == Err::<i64, NumError>(NumError::Syntax),
            Some(v) => if i64::MIN <= v <= i64::MAX {
                r == Ok::<i64, NumError>(v as i64)
            } else {
                r == Err::<i64, NumError>(NumError::Range)
            },
        },
{
    if s.len() == 0 {
        return Err(NumError::Syntax);
    }
    let signed = s[0] == 43 || s[0] == 45;
    let from: usize = if signed {
        1
    } else {
        0
    };
    assert(s@.subrange(0, s@.len() as int) =~= s@);
    let v: u64 = match parse_digits(s, from) {
        None => {
            return Err(NumError::Syntax);
        },
        Some(v) => v,
    };
    if signed && s[0] == 45 {
        if v > 0x8000_0000_0000_0000 {
            return Err(NumError::Range);
        }
        if v == 0x8000_0000_0000_0000 {
            return Ok(i64::MIN);
        }
        return Ok(-(v as i64));
    }
    if v > 0x7fff_ffff_ffff_ffff {
        return Err(NumError::Range);
    }
    Ok(v as i64)
}

/// Reading back the decimal text of an integer gives the integer.
pub proof fn law_decimal_round_trip(x: int)
    ensures
        int_value(dec(x)) == Some(x),
{
    let n: nat = if x < 0 {
        (-x) as nat
    } else {
        x as nat
    };
    lemma_digits_round_trip(n);
    if x < 0 {
        assert(dec(x).subrange(1, dec(x).len() as int) =~= dec_nat(n));
    }
}

proof fn lemma_digits_round_trip(n: nat)
    ensures
        digits_value(dec_nat(n)) == Some(n),
        dec_nat(n).len() > 0,
        48 <= dec_nat(n)[0] <= 57,
    decreases n,
{
    if n >= 10 {
        lemma_digits_round_trip(n / 10);
        assert(dec_nat(n).drop_last() =~= dec_nat(n / 10));
    }
}

// ---- order ----

/// Lexicographic order of byte strings.
pub open spec fn bytes_lt(a: Seq<u8>, b: Seq<u8>) -> bool
    decreases a.len(),
{
    if b.len() == 0 {
        false
    } else if a.len() == 0 {
        true
    } else {
        a[0] < b[0] || (a[0] == b[0] && bytes_lt(
            a.subrange(1, a.len() as int),
            b.subrange(1, b.len() as int),
        ))
    }
}

pub proof fn lemma_bytes_lt(a: Seq<u8>, b: Seq<u8>, c: Seq<u8>)
    ensures
        !bytes_lt(a, a),
        bytes_lt(a, b) ==> !bytes_lt(b, a),
        bytes_lt(a, b) ==> bytes_lt(a, c) || bytes_lt(c, b),
    decreases a.len(),
{
    if a.len() > 0 {
        let a1 = a.subrange(1, a.len() as int);
        lemma_bytes_lt(a1, a1, a1);
        if b.len() > 0 {
            let b1 = b.subrange(1, b.len() as int);
            lemma_bytes_lt(a1, b1, a1);
            if c.len() > 0 {
                lemma_bytes_lt(a1, b1, c.subrange(1, c.len() as int));
            }
        }
    }
}

pub fn bytes_less(a: &[u8], b: &[u8]) -> (r: bool)
    ensures
        r == bytes_lt(a@, b@),
{
    let mut i: usize = 0;
    assert(a@.subrange(0, a@.len() as int) =~= a@);
    assert(b@.subrange(0, b@.len() as int) =~= b@);
    while i < a.len() && i < b.len()
        invariant
            i <= a.len(),
            i <= b.len(),
            bytes_lt(a@, b@) == bytes_lt(
                a@.subrange(i as int, a@.len() as int),
                b@.subrange(i as int, b@.len() as int),
            ),
        decreases a.len() - i,
    {
        let ghost s = a@.subrange(i as int, a@.len() as int);
        let ghost t = b@.subrange(i as int, b@.len() as int);
        assert(s[0] == a@[i as int] && t[0] == b@[i as int]);
        if a[i] < b[i] {
            return true;
        }
        if a[i] > b[i] {
            return false;
        }
        assert(s.subrange(1, s.len() as int) =~= a@.subrange(i + 1, a@.len() as int));
        assert(t.subrange(1, t.len() as int) =~= b@.subrange(i + 1, b@.len() as int));
        i = i + 1;
    }
    i < b.len()
}

/// A name as a sort key.
pub struct Name {
    pub bytes: Vec<u8>,
}

impl SortKey for Name {
    open spec fn key_lt(&self, other: &Self) -> bool {
        bytes_lt(self.bytes@, other.bytes@)
    }

    proof fn lt_laws(a: &Self, b: &Self, c: &Self) {
        lemma_bytes_lt(a.bytes@, b.bytes@, c.bytes@);
        lemma_bytes_lt(a.bytes@, a.bytes@, a.bytes@);
    }

    fn less(&self, other: &Self) -> (r: bool) {
        bytes_less(self.bytes.as_slice(), other.bytes.as_slice())
    }
}

/// The order of byte strings is decided by the first byte in which they differ;
/// a string comes before those that continue it.
pub proof fn law_byte_order(a: Seq<u8>, b: Seq<u8>, k: int)
    requires
        0 <= k <= a.len(),
        k <= b.len(),
        a.subrange(0, k) == b.subrange(0, k),
        k < a.len() && k < b.len() ==> a[k] != b[k],
    ensures
        k < a.len() && k < b.len() ==> bytes_lt(a, b) == (a[k] < b[k]),
        k == a.len() ==> bytes_lt(a, b) == (k < b.len()),
        k < a.len() && k == b.len() ==> !bytes_lt(a, b),
    decreases k,
{
    if k > 0 {
        let x = a.subrange(1, a.len() as int);
        let y = b.subrange(1, b.len() as int);
        assert(a[0] == a.subrange(0, k)[0] && b[0] == b.subrange(0, k)[0]);
        assert(x.subrange(0, k - 1) =~= a.subrange(0, k).subrange(1, k));
        assert(y.subrange(0, k - 1) =~= b.subrange(0, k).subrange(1, k));
        law_byte_order(x, y, k - 1);
    }
}

/// A path for the kernel is the path and a NUL.
pub proof fn law_kernel_path(p: Seq<u8>)
    ensures
        c_path(p).len() == p.len() + 1,
        c_path(p).last() == 0,
        c_path(p).drop_last() == p,
{
    assert(c_path(p).drop_last() =~= p);
}

/// What stands before the first NUL is kept, and all of a string without one.
pub proof fn law_cut_at_the_first_nul(s: Seq<u8>, rest: Seq<u8>)
    requires
        forall|i: int| 0 <= i < s.len() ==> #[trigger] s[i] != 0,
    ensures
        until_nul(s + seq![0u8] + rest) == s,
        until_nul(s) == s,
{
    let t = s + seq![0u8] + rest;
    assert forall|i: int| 0 <= i < s.len() implies #[trigger] t[i] != 0 by {
        assert(t[i] == s[i]);
    }
    lemma_until_nul(t, s.len() as int);
    assert(t.subrange(0, s.len() as int) =~= s);
    lemma_until_nul(s, s.len() as int);
    assert(s.subrange(0, s.len() as int) =~= s);
}

/// Decimal digits count by ten from the left; a sign may stand before them, and
/// nothing else may stand among them.
pub proof fn law_digits_count_by_ten(s: Seq<u8>, d: u8)
    ensures
        d < 10 ==> digits_value(seq![(48 + d) as u8]) == Some(d as nat),
        d < 10 ==> (digits_value(s) matches Some(v) ==> digits_value(s.push((48 + d) as u8))
            == Some((10 * v + d) as nat)),
        d < 48 || d > 57 ==> digits_value(s.push(d)) is None,
        digits_value(Seq::empty()) is None,
        digits_value(s) matches Some(v) ==> int_value(seq!['+' as u8] + s) == Some(v as int)
            && int_value(seq!['-' as u8] + s) == Some(-(v as int)) && int_value(s) == Some(v as int),
{
    let t = s.push((48 + d) as u8);
    assert(t.drop_last() =~= s);
    assert(s.push(d).drop_last() =~= s);
    assert((seq!['+' as u8] + s).subrange(1, s.len() as int + 1) =~= s);
    assert((seq!['-' as u8] + s).subrange(1, s.len() as int + 1) =~= s);
    if digits_value(s) is Some {
        lemma_first_digit(s);
    }
}

proof fn lemma_first_digit(s: Seq<u8>)
    requires
        digits_value(s) is Some,
    ensures
        s.len() > 0,
        48 <= s[0] <= 57,
    decreases s.len(),
{
    if s.len() > 1 {
        lemma_first_digit(s.drop_last());
    }
}

proof fn lemma_leading_digit(n: nat)
    ensures
        dec_nat(n).len() > 0,
        48 <= dec_nat(n)[0] <= 57,
        n > 0 ==> dec_nat(n)[0] != 48,
        n < 10 ==> dec_nat(n).len() == 1,
    decreases n,
{
    if n >= 10 {
        lemma_leading_digit(n / 10);
    }
}

/// A number's text begins with a minus exactly if the number is negative, and
/// else with a digit, which is zero only for the number zero itself.
pub proof fn law_numbers_have_no_leading_zeros(x: int)
    ensures
        dec(x).len() > 0,
        (dec(x)[0] == 45) == (x < 0),
        x >= 0 ==> 48 <= dec(x)[0] <= 57,
        x > 0 ==> dec(x)[0] != 48,
        x < 0 ==> dec(x)[1] != 48,
        dec(0) == seq![48u8],
{
    lemma_leading_digit(if x < 0 {
        (-x) as nat
    } else {
        x as nat
    });
}

} // verus!
