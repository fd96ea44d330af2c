//! Byte readers for DWARF sections. Every reader takes the section and a
//! position, and either returns a value and moves the position past it, or
//! returns `None` and leaves the position alone.

use vstd::prelude::*;

verus! {

/// What a reader owes its caller: the value and the new position, or neither.
pub open spec fn got<T>(r: Option<T>, want: Option<(T, int)>, before: usize, after: usize) -> bool {
    match want {
        Some((v, o)) => r == Some(v) && after == o,
        None => r is None && after == before,
    }
}

pub open spec fn le_value(b: Seq<u8>, o: int, n: nat) -> int
    decreases n,
{
    if n == 0 {
        0
    } else {
        b[o] + 256 * le_value(b, o + 1, (n - 1) as nat)
    }
}

pub open spec fn get_u8(b: Seq<u8>, o: int) -> Option<(u8, int)> {
    if 0 <= o < b.len() {
        Some((b[o], o + 1))
    } else {
        None
    }
}

pub open spec fn get_u16(b: Seq<u8>, o: int) -> Option<(u16, int)> {
    if 0 <= o && o + 2 <= b.len() {
        Some((le_value(b, o, 2) as u16, o + 2))
    } else {
        None
    }
}

pub open spec fn get_u32(b: Seq<u8>, o: int) -> Option<(u32, int)> {
    if 0 <= o && o + 4 <= b.len() {
        Some((le_value(b, o, 4) as u32, o + 4))
    } else {
        None
    }
}

pub open spec fn get_u64(b: Seq<u8>, o: int) -> Option<(u64, int)> {
    if 0 <= o && o + 8 <= b.len() {
        Some((le_value(b, o, 8) as u64, o + 8))
    } else {
        None
    }
}

pub fn read_u8(buf: &[u8], off: &mut usize) -> (r: Option<u8>)
    ensures
        got(r, get_u8(buf@, *old(off) as int), *old(off), *final(off)),
{
    if *off >= buf.len() {
        return None;
    }
    let v: u8 = buf[*off];
    *off = *off + 1;
    Some(v)
}

pub fn le16(buf: &[u8], o: usize) -> (r: u16)
    requires
        o + 2 <= buf.len(),
    ensures
        r == le_value(buf@, o as int, 2),
{
    reveal_with_fuel(le_value, 3);
    buf[o] as u16 + 256 * (buf[o + 1] as u16)
}

pub fn le32(buf: &[u8], o: usize) -> (r: u32)
    requires
        o + 4 <= buf.len(),
    ensures
        r == le_value(buf@, o as int, 4),
{
    reveal_with_fuel(le_value, 5);
    buf[o] as u32 + 256 * (buf[o + 1] as u32) + 65536 * (buf[o + 2] as u32) + 16777216 * (buf[o
        + 3] as u32)
}

pub fn le64(buf: &[u8], o: usize) -> (r: u64)
    requires
        o + 8 <= buf.len(),
    ensures
        r == le_value(buf@, o as int, 8),
{
    reveal_with_fuel(le_value, 9);
    let lo: u64 = le32(buf, o) as u64;
    let hi: u64 = le32(buf, o + 4) as u64;
    lo + 4294967296 * hi
}

pub fn read_u16(buf: &[u8], off: &mut usize) -> (r: Option<u16>)
    ensures
        got(r, get_u16(buf@, *old(off) as int), *old(off), *final(off)),
{
    if buf.len() < 2 || *off > buf.len() - 2 {
        return None;
    }
    let v: u16 = le16(buf, *off);
    *off = *off + 2;
    Some(v)
}

pub fn read_u32(buf: &[u8], off: &mut usize) -> (r: Option<u32>)
    ensures
        got(r, get_u32(buf@, *old(off) as int), *old(off), *final(off)),
{
    if buf.len() < 4 || *off > buf.len() - 4 {
        return None;
    }
    let v: u32 = le32(buf, *off);
    *off = *off + 4;
    Some(v)
}

pub fn read_u64(buf: &[u8], off: &mut usize) -> (r: Option<u64>)
    ensures
        got(r, get_u64(buf@, *old(off) as int), *old(off), *final(off)),
{
    if buf.len() < 8 || *off > buf.len() - 8 {
        return None;
    }
    let v: u64 = le64(buf, *off);
    *off = *off + 8;
    Some(v)
}

/// Position of the first byte at or after `o` that satisfies `stop`, or the
/// length of the section when there is none.
pub open spec fn scan(b: Seq<u8>, o: int, stop: spec_fn(u8) -> bool) -> int
    decreases b.len() - o,
{
    if o < 0 || o >= b.len() {
        b.len() as int
    } else if stop(b[o]) {
        o
    } else {
        scan(b, o + 1, stop)
    }
}

pub proof fn lemma_scan_step(b: Seq<u8>, o: int, i: int, stop: spec_fn(u8) -> bool)
    requires
        0 <= o <= i <= b.len(),
        forall|k: int| o <= k < i ==> !stop(#[trigger] b[k]),
    ensures
        scan(b, o, stop) == scan(b, i, stop),
    decreases i - o,
{
    if o < i {
        assert(!stop(b[o]));
        lemma_scan_step(b, o + 1, i, stop);
    }
}

pub open spec fn is_last_group() -> spec_fn(u8) -> bool {
    |x: u8| x < 128
}

pub open spec fn is_nul() -> spec_fn(u8) -> bool {
    |x: u8| x == 0
}

/// Value of the base-128 groups in `b[o..e)`, least significant first, the
/// last of them taken as `top`.
pub open spec fn groups(b: Seq<u8>, o: int, e: int, top: int) -> int
    decreases e - o,
{
    if o >= e - 1 {
        top
    } else {
        (b[o] - 128) + 128 * groups(b, o + 1, e, top)
    }
}

pub open spec fn two64() -> int {
    0x1_0000_0000_0000_0000
}

pub open spec fn wrap64(x: int) -> u64 {
    (x % 0x1_0000_0000_0000_0000) as u64
}

/// The signed 64-bit number congruent to `x`.
pub open spec fn wrap_i64(x: int) -> i64 {
    if x % 0x1_0000_0000_0000_0000 >= 0x8000_0000_0000_0000 {
        (x % 0x1_0000_0000_0000_0000 - 0x1_0000_0000_0000_0000) as i64
    } else {
        (x % 0x1_0000_0000_0000_0000) as i64
    }
}

/// Unsigned LEB128, reduced to 64 bits.
pub open spec fn get_uleb(b: Seq<u8>, o: int) -> Option<(u64, int)> {
    let e = scan(b, o, is_last_group());
    if 0 <= o && e < b.len() {
        Some((wrap64(groups(b, o, e + 1, b[e] as int)), e + 1))
    } else {
        None
    }
}

pub open spec fn signed_group(x: u8) -> int {
    if x >= 64 {
        x - 128
    } else {
        x as int
    }
}

/// Signed LEB128, reduced to 64 bits.
pub open spec fn get_sleb(b: Seq<u8>, o: int) -> Option<(i64, int)> {
    let e = scan(b, o, is_last_group());
    if 0 <= o && e < b.len() {
        Some((wrap_i64(groups(b, o, e + 1, signed_group(b[e]))), e + 1))
    } else {
        None
    }
}

/// A NUL-terminated string: its bytes, and the position past the NUL.
pub open spec fn get_cstr(b: Seq<u8>, o: int) -> Option<(Seq<u8>, int)> {
    let e = scan(b, o, is_nul());
    if 0 <= o && e < b.len() {
        Some((b.subrange(o, e), e + 1))
    } else {
        None
    }
}

/// The initial length of a DWARF unit, and whether it is in the 64-bit format.
pub open spec fn get_initial_length(b: Seq<u8>, o: int) -> Option<((u64, bool), int)> {
    match get_u32(b, o) {
        None => None,
        Some((v, o1)) => if v == 0xffff_ffff {
            match get_u64(b, o1) {
                None => None,
                Some((w, o2)) => Some(((w, true), o2)),
            }
        } else {
            Some(((v as u64, false), o1))
        },
    }
}

/// A position found by `scan` is a hit, and nothing before it is.
pub proof fn lemma_scan_bounds(b: Seq<u8>, o: int, stop: spec_fn(u8) -> bool)
    requires
        0 <= o <= b.len(),
    ensures
        o <= scan(b, o, stop) <= b.len(),
        scan(b, o, stop) < b.len() ==> stop(b[scan(b, o, stop)]),
        forall|k: int| o <= k < scan(b, o, stop) ==> !stop(#[trigger] b[k]),
    decreases b.len() - o,
{
    if o < b.len() && !stop(b[o]) {
        lemma_scan_bounds(b, o + 1, stop);
    }
}

fn find_last_group(buf: &[u8], start: usize) -> (r: Option<usize>)
    ensures
        match r {
            Some(e) => start <= e < buf.len() && e == scan(buf@, start as int, is_last_group())
                && buf[e as int] < 128 && forall|k: int| start <= k < e ==> #[trigger] buf@[k]
                >= 128,
            None => scan(buf@, start as int, is_last_group()) >= buf.len(),
        },
{
    let mut i: usize = start;
    while i < buf.len()
        invariant
            start <= i,
            start <= buf.len() ==> i <= buf.len(),
            forall|k: int| start <= k < i ==> #[trigger] buf@[k] >= 128,
        decreases buf.len() - i,
    {
        if buf[i] < 128 {
            proof {
                lemma_scan_step(buf@, start as int, i as int, is_last_group());
            }
            return Some(i);
        }
        i = i + 1;
    }
    proof {
        if start <= buf.len() {
            lemma_scan_step(buf@, start as int, i as int, is_last_group());
        }
    }
    None
}

proof fn lemma_horner(low: int, x: int)
    ensures
        (low + 128 * x) % two64() == (low + 128 * (x % two64())) % two64(),
{
    vstd::arithmetic::div_mod::lemma_mul_mod_noop_right(128, x, two64());
    vstd::arithmetic::div_mod::lemma_add_mod_noop(low, 128 * x, two64());
    vstd::arithmetic::div_mod::lemma_add_mod_noop(low, 128 * (x % two64()), two64());
}

/// Folds the groups `buf[start..=e]`, the last of them already in `top`.
fn fold_groups(buf: &[u8], start: usize, e: usize, top: u64, Ghost(t): Ghost<int>) -> (r: u64)
    requires
        start <= e < buf.len(),
        forall|k: int| start <= k < e ==> #[trigger] buf@[k] >= 128,
        top == t % two64(),
    ensures
        r == groups(buf@, start as int, e + 1, t) % two64(),
{
    let mut v: u64 = top;
    let mut i: usize = e;
    while i > start
        invariant
            start <= i <= e < buf.len(),
            forall|k: int| start <= k < e ==> #[trigger] buf@[k] >= 128,
            v == groups(buf@, i as int, e + 1, t) % two64(),
        decreases i,
    {
        i = i - 1;
        let low: u64 = (buf[i] - 128) as u64;
        proof {
            lemma_horner(low as int, groups(buf@, i + 1, e + 1, t));
        }
        v = ((low as u128 + 128 * (v as u128)) % 0x1_0000_0000_0000_0000) as u64;
    }
    v
}

pub fn read_uleb(buf: &[u8], off: &mut usize) -> (r: Option<u64>)
    ensures
        got(r, get_uleb(buf@, *old(off) as int), *old(off), *final(off)),
{
    match find_last_group(buf, *off) {
        None => None,
        Some(e) => {
            let top: u64 = buf[e] as u64;
            let v: u64 = fold_groups(buf, *off, e, top, Ghost(top as int));
            *off = e + 1;
            Some(v)
        },
    }
}

pub fn to_i64(v: u64) -> (r: i64)
    ensures
        r == wrap_i64(v as int),
{
    if v >= 0x8000_0000_0000_0000 {
        (v - 0x8000_0000_0000_0000) as i64 + i64::MIN
    } else {
        v as i64
    }
}

pub fn read_sleb(buf: &[u8], off: &mut usize) -> (r: Option<i64>)
    ensures
        got(r, get_sleb(buf@, *old(off) as int), *old(off), *final(off)),
{
    match find_last_group(buf, *off) {
        None => None,
        Some(e) => {
            let x: u8 = buf[e];
            let top: u64 = if x >= 64 {
                0xffff_ffff_ffff_ff80 + x as u64
            } else {
                x as u64
            };
            let v: u64 = fold_groups(buf, *off, e, top, Ghost(signed_group(x)));
            *off = e + 1;
            Some(to_i64(v))
        },
    }
}

/// A copy of `buf[lo..hi)`.
pub fn copy_range(buf: &[u8], lo: usize, hi: usize) -> (r: Vec<u8>)
    requires
        lo <= hi <= buf.len(),
    ensures
        r@ == buf@.subrange(lo as int, hi as int),
{
    let mut out: Vec<u8> = Vec::new();
    let mut i: usize = lo;
    while i < hi
        invariant
            lo <= i <= hi <= buf.len(),
            out@ == buf@.subrange(lo as int, i as int),
        decreases hi - i,
    {
        out.push(buf[i]);
        i = i + 1;
        assert(out@ =~= buf@.subrange(lo as int, i as int));
    }
    out
}

pub fn read_cstr(buf: &[u8], off: &mut usize) -> (r: Option<Vec<u8>>)
    ensures
        match get_cstr(buf@, *old(off) as int) {
            Some((s, o)) => r is Some && r->0@ == s && *final(off) == o,
            None => r is None && *final(off) == *old(off),
        },
{
    let start: usize = *off;
    let mut i: usize = start;
    while i < buf.len()
        invariant
            start == *off,
            start <= i,
            start <= buf.len() ==> i <= buf.len(),
            forall|k: int| start <= k < i ==> #[trigger] buf@[k] != 0,
            *off == *old(off),
        decreases buf.len() - i,
    {
        if buf[i] == 0 {
            proof {
                lemma_scan_step(buf@, start as int, i as int, is_nul());
            }
            *off = i + 1;
            return Some(copy_range(buf, start, i));
        }
        i = i + 1;
    }
    proof {
        if start <= buf.len() {
            lemma_scan_step(buf@, start as int, i as int, is_nul());
        }
    }
    None
}

pub fn read_initial_length(buf: &[u8], off: &mut usize) -> (r: Option<(u64, bool)>)
    ensures
        got(r, get_initial_length(buf@, *old(off) as int), *old(off), *final(off)),
{
    let start: usize = *off;
    match read_u32(buf, off) {
        None => None,
        Some(v) => if v == 0xffff_ffff {
            match read_u64(buf, off) {
                None => {
                    *off = start;
                    None
                },
                Some(w) => Some((w, true)),
            }
        } else {
            Some((v as u64, false))
        },
    }
}

// ---- what was written is read back ----

/// A number in `n` bytes, the least significant first.
pub open spec fn le_bytes(v: nat, n: nat) -> Seq<u8>
    decreases n,
{
    if n == 0 {
        Seq::empty()
    } else {
        seq![(v % 256) as u8] + le_bytes(v / 256, (n - 1) as nat)
    }
}

pub open spec fn pow256(n: nat) -> nat
    decreases n,
{
    if n == 0 {
        1
    } else {
        256 * pow256((n - 1) as nat)
    }
}

/// A number is read back from its bytes, wherever they stand.
pub proof fn law_little_endian_reads_back(b: Seq<u8>, o: int, v: nat, n: nat)
    requires
        0 <= o,
        o + n <= b.len(),
        v < pow256(n),
        b.subrange(o, o + n) == le_bytes(v, n),
    ensures
        le_value(b, o, n) == v,
        n == 2 ==> get_u16(b, o) == Some((v as u16, o + 2)),
        n == 4 ==> get_u32(b, o) == Some((v as u32, o + 4)),
        n == 8 ==> get_u64(b, o) == Some((v as u64, o + 8)),
        n == 1 ==> get_u8(b, o) == Some((v as u8, o + 1)),
    decreases n,
{
    if n > 0 {
        let r = le_bytes(v, n);
        lemma_le_bytes_len(v / 256, (n - 1) as nat);
        assert(b[o] == r[0]) by {
            assert(b.subrange(o, o + n)[0] == b[o]);
        }
        let t = le_bytes(v / 256, (n - 1) as nat);
        assert(b.subrange(o + 1, o + n) =~= t) by {
            assert forall|i: int| 0 <= i < n - 1 implies b.subrange(o + 1, o + n)[i]
                == #[trigger] t[i] by {
                assert(b.subrange(o, o + n)[i + 1] == r[i + 1]);
            }
        }
        assert(v / 256 < pow256((n - 1) as nat)) by (nonlinear_arith)
            requires
                v < 256 * pow256((n - 1) as nat),
        ;
        law_little_endian_reads_back(b, o + 1, v / 256, (n - 1) as nat);
        assert(256 * (v / 256) + v % 256 == v);
    }
}

proof fn lemma_le_bytes_len(v: nat, n: nat)
    ensures
        le_bytes(v, n).len() == n,
    decreases n,
{
    if n > 0 {
        lemma_le_bytes_len(v / 256, (n - 1) as nat);
    }
}

/// A number in groups of seven bits, the least significant first; every group
/// but the last is marked.
pub open spec fn uleb_bytes(v: nat) -> Seq<u8>
    decreases v,
{
    if v < 128 {
        seq![v as u8]
    } else {
        seq![(128 + v % 128) as u8] + uleb_bytes(v / 128)
    }
}

/// A signed number in groups of seven bits; the last group carries the sign.
pub open spec fn sleb_bytes(v: int) -> Seq<u8>
    decreases (if v < 0 { -v } else { v }),
{
    if -64 <= v < 64 {
        seq![(v % 128) as u8]
    } else {
        seq![(128 + v % 128) as u8] + sleb_bytes(v / 128)
    }
}

/// An unsigned number in groups is read back, wherever it stands.
pub proof fn law_uleb_reads_back(b: Seq<u8>, o: int, v: u64)
    requires
        0 <= o,
        o + uleb_bytes(v as nat).len() <= b.len(),
        b.subrange(o, o + uleb_bytes(v as nat).len()) == uleb_bytes(v as nat),
    ensures
        get_uleb(b, o) == Some((v, o + uleb_bytes(v as nat).len())),
{
    lemma_uleb(b, o, v as nat);
}

proof fn lemma_uleb(b: Seq<u8>, o: int, v: nat)
    requires
        0 <= o,
        o + uleb_bytes(v).len() <= b.len(),
        b.subrange(o, o + uleb_bytes(v).len()) == uleb_bytes(v),
    ensures
        uleb_bytes(v).len() > 0,
        scan(b, o, is_last_group()) == o + uleb_bytes(v).len() - 1,
        ({
            let e = o + uleb_bytes(v).len() - 1;
            groups(b, o, e + 1, b[e] as int) == v
        }),
    decreases v,
{
    let r = uleb_bytes(v);
    assert(b[o] == r[0]) by {
        assert(b.subrange(o, o + r.len())[0] == b[o]);
    }
    if v >= 128 {
        let t = uleb_bytes(v / 128);
        assert(b.subrange(o + 1, o + 1 + t.len()) =~= t) by {
            assert forall|i: int| 0 <= i < t.len() implies b.subrange(o + 1, o + 1 + t.len())[i]
                == #[trigger] t[i] by {
                assert(b.subrange(o, o + r.len())[i + 1] == r[i + 1]);
            }
        }
        lemma_uleb(b, o + 1, v / 128);
    }
}

/// A signed number in groups is read back, wherever it stands.
pub proof fn law_sleb_reads_back(b: Seq<u8>, o: int, v: i64)
    requires
        0 <= o,
        o + sleb_bytes(v as int).len() <= b.len(),
        b.subrange(o, o + sleb_bytes(v as int).len()) == sleb_bytes(v as int),
    ensures
        get_sleb(b, o) == Some((v, o + sleb_bytes(v as int).len())),
{
    lemma_sleb(b, o, v as int);
    if v < 0 {
        vstd::arithmetic::div_mod::lemma_mod_add_multiples_vanish(v as int, two64());
        vstd::arithmetic::div_mod::lemma_small_mod((v + two64()) as nat, two64() as nat);
    }
}

proof fn lemma_sleb(b: Seq<u8>, o: int, v: int)
    requires
        0 <= o,
        o + sleb_bytes(v).len() <= b.len(),
        b.subrange(o, o + sleb_bytes(v).len()) == sleb_bytes(v),
    ensures
        sleb_bytes(v).len() > 0,
        scan(b, o, is_last_group()) == o + sleb_bytes(v).len() - 1,
        ({
            let e = o + sleb_bytes(v).len() - 1;
            groups(b, o, e + 1, signed_group(b[e])) == v
        }),
    decreases (if v < 0 { -v } else { v }),
{
    let r = sleb_bytes(v);
    assert(b[o] == r[0]) by {
        assert(b.subrange(o, o + r.len())[0] == b[o]);
    }
    if v < -64 || v >= 64 {
        let t = sleb_bytes(v / 128);
        assert(b.subrange(o + 1, o + 1 + t.len()) =~= t) by {
            assert forall|i: int| 0 <= i < t.len() implies b.subrange(o + 1, o + 1 + t.len())[i]
                == #[trigger] t[i] by {
                assert(b.subrange(o, o + r.len())[i + 1] == r[i + 1]);
            }
        }
        lemma_sleb(b, o + 1, v / 128);
        assert(128 * (v / 128) + v % 128 == v);
    }
}

/// A string up to its NUL is read back, wherever it stands.
pub proof fn law_string_reads_back(b: Seq<u8>, o: int, s: Seq<u8>)
    requires
        0 <= o,
        o + s.len() < b.len(),
        b.subrange(o, o + s.len()) == s,
        b[o + s.len()] == 0,
        forall|i: int| 0 <= i < s.len() ==> #[trigger] s[i] != 0,
    ensures
        get_cstr(b, o) == Some((s, o + s.len() + 1)),
{
    let e = o + s.len();
    assert forall|k: int| o <= k < e implies !is_nul()(#[trigger] b[k]) by {
        assert(b.subrange(o, e)[k - o] == s[k - o]);
    }
    lemma_scan_step(b, o, e, is_nul());
}

/// The length of a unit is four bytes, or twelve that start with four of all
/// ones; a unit of the second format is told from the first.
pub proof fn law_unit_length_reads_back(b: Seq<u8>, o: int, v: u64, wide: bool)
    requires
        0 <= o,
        !wide ==> v < 0xffff_ffff && o + 4 <= b.len() && b.subrange(o, o + 4) == le_bytes(
            v as nat,
            4,
        ),
        wide ==> o + 12 <= b.len() && b.subrange(o, o + 4) == le_bytes(0xffff_ffff, 4)
            && b.subrange(o + 4, o + 12) == le_bytes(v as nat, 8),
    ensures
        get_initial_length(b, o) == Some(
            (
                (v, wide),
                if wide {
                    o + 12
                } else {
                    o + 4
                },
            ),
        ),
{
    assert(pow256(4) == 0x1_0000_0000 && pow256(8) == 0x1_0000_0000_0000_0000) by {
        reveal_with_fuel(pow256, 9);
    }
    if wide {
        law_little_endian_reads_back(b, o, 0xffff_ffff, 4);
        law_little_endian_reads_back(b, o + 4, v as nat, 8);
    } else {
        law_little_endian_reads_back(b, o, v as nat, 4);
    }
}

/// Arithmetic that leaves the range goes round; inside it nothing changes.
pub proof fn law_numbers_go_round(x: int)
    ensures
        0 <= x <= u64::MAX ==> wrap64(x) == x,
        i64::MIN <= x <= i64::MAX ==> wrap_i64(x) == x,
        wrap64(x + 0x1_0000_0000_0000_0000) == wrap64(x),
        wrap_i64(x + 0x1_0000_0000_0000_0000) == wrap_i64(x),
{
    if x < 0 && i64::MIN <= x {
        vstd::arithmetic::div_mod::lemma_mod_add_multiples_vanish(x, two64());
        vstd::arithmetic::div_mod::lemma_small_mod((x + two64()) as nat, two64() as nat);
    }
    vstd::arithmetic::div_mod::lemma_mod_add_multiples_vanish(x, two64());
}

/// A number that does not lie in the section whole is not read.
pub proof fn law_nothing_is_read_past_the_end(b: Seq<u8>, o: int)
    requires
        0 <= o,
    ensures
        get_u8(b, o) is Some <==> o + 1 <= b.len(),
        get_u16(b, o) is Some <==> o + 2 <= b.len(),
        get_u32(b, o) is Some <==> o + 4 <= b.len(),
        get_u64(b, o) is Some <==> o + 8 <= b.len(),
{
}

/// A variable-length number without its last group, and a string without its
/// NUL, are not read.
pub proof fn law_unended_values_are_not_read(b: Seq<u8>, o: int)
    requires
        0 <= o <= b.len(),
    ensures
        (forall|k: int| o <= k < b.len() ==> #[trigger] b[k] >= 128) ==> get_uleb(b, o) is None
            && get_sleb(b, o) is None,
        (forall|k: int| o <= k < b.len() ==> #[trigger] b[k] != 0) ==> get_cstr(b, o) is None,
{
    let n = b.len() as int;
    if forall|k: int| o <= k < b.len() ==> #[trigger] b[k] >= 128 {
        lemma_scan_step(b, o, n, is_last_group());
    }
    if forall|k: int| o <= k < b.len() ==> #[trigger] b[k] != 0 {
        lemma_scan_step(b, o, n, is_nul());
    }
}

} // verus!
