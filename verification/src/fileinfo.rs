//! File modes and what is known of a file.

use vstd::prelude::*;

use crate::gostr::copy_bytes;
use crate::syscall::{
    Stat_t, DT_BLK, DT_CHR, DT_DIR, DT_FIFO, DT_LNK, DT_REG, DT_SOCK, S_IFBLK, S_IFCHR, S_IFDIR,
    S_IFIFO, S_IFLNK, S_IFMT, S_IFSOCK, S_ISGID, S_ISUID, S_ISVTX,
};
use crate::dwarf_util;

verus! {

#[derive(Clone, Copy, Debug, PartialEq, Eq, Structural)]
pub struct FileMode(pub u32);

pub const ModeDir: u32 = 0x8000_0000;

pub const ModeAppend: u32 = 0x4000_0000;

pub const ModeExclusive: u32 = 0x2000_0000;

pub const ModeTemporary: u32 = 0x1000_0000;

pub const ModeSymlink: u32 = 0x0800_0000;

pub const ModeDevice: u32 = 0x0400_0000;

pub const ModeNamedPipe: u32 = 0x0200_0000;

pub const ModeSocket: u32 = 0x0100_0000;

pub const ModeSetuid: u32 = 0x0080_0000;

pub const ModeSetgid: u32 = 0x0040_0000;

pub const ModeCharDevice: u32 = 0x0020_0000;

pub const ModeSticky: u32 = 0x0010_0000;

pub const ModeIrregular: u32 = 0x0008_0000;

/// The bits that say what a file is.
pub const ModeType: u32 = 0x8f28_0000;

pub const ModePerm: u32 = 0o777;

/// The type of a directory entry whose type the kernel did not say.
pub const TYPE_UNKNOWN: u32 = 0xffff_ffff;

/// A point in time; `Zero` is the time that was never set.
#[derive(Clone, Copy, Debug, PartialEq, Eq, Structural)]
pub enum Time {
    Zero,
    Unix { sec: i64, nsec: i64 },
}

#[derive(Debug)]
pub struct FileInfoData {
    pub name: Vec<u8>,
    pub size: i64,
    pub mode: FileMode,
    pub mod_time: Time,
    pub is_dir: bool,
    pub sys: Option<Stat_t>,
}

pub struct InfoView {
    pub name: Seq<u8>,
    pub size: i64,
    pub mode: FileMode,
    pub mod_time: Time,
    pub is_dir: bool,
    pub sys: Option<Stat_t>,
}

impl View for FileInfoData {
    type V = InfoView;

    open spec fn view(&self) -> InfoView {
        InfoView {
            name: self.name@,
            size: self.size,
            mode: self.mode,
            mod_time: self.mod_time,
            is_dir: self.is_dir,
            sys: self.sys,
        }
    }
}

/// What stands for a file that could not be examined.
pub open spec fn no_info(name: Seq<u8>) -> InfoView {
    InfoView {
        name,
        size: 0,
        mode: FileMode(0),
        mod_time: Time::Zero,
        is_dir: false,
        sys: None,
    }
}

pub fn empty_info(name: &[u8]) -> (r: FileInfoData)
    ensures
        r@ == no_info(name@),
{
    FileInfoData {
        name: copy_bytes(name),
        size: 0,
        mode: FileMode(0),
        mod_time: Time::Zero,
        is_dir: false,
        sys: None,
    }
}

impl FileInfoData {
    pub fn new(name: Vec<u8>, size: i64, mode: FileMode, mod_time: Time, is_dir: bool) -> (r:
        FileInfoData)
        ensures
            r@ == (InfoView { name: name@, size, mode, mod_time, is_dir, sys: None }),
    {
        FileInfoData { name, size, mode, mod_time, is_dir, sys: None }
    }

    pub fn Name(&self) -> (r: Vec<u8>)
        ensures
            r@ == self@.name,
    {
        copy_bytes(self.name.as_slice())
    }

    pub fn Size(&self) -> (r: i64)
        ensures
            r == self@.size,
    {
        self.size
    }

    pub fn Mode(&self) -> (r: FileMode)
        ensures
            r == self@.mode,
    {
        self.mode
    }

    pub fn ModTime(&self) -> (r: Time)
        ensures
            r == self@.mod_time,
    {
        self.mod_time
    }

    pub fn IsDir(&self) -> (r: bool)
        ensures
            r == self@.is_dir,
    {
        self.is_dir
    }

    /// The kernel's own record, if the file was examined.
    pub fn Sys(&self) -> (r: Option<Stat_t>)
        ensures
            r == self@.sys,
    {
        self.sys
    }

    pub fn copy(&self) -> (r: FileInfoData)
        ensures
            r@ == self@,
    {
        FileInfoData {
            name: copy_bytes(self.name.as_slice()),
            size: self.size,
            mode: self.mode,
            mod_time: self.mod_time,
            is_dir: self.is_dir,
            sys: self.sys,
        }
    }
}

/// Two records are of one file: same device and same number. Records that the
/// kernel did not make are of no file.
pub open spec fn same_file(a: InfoView, b: InfoView) -> bool {
    match (a.sys, b.sys) {
        (Some(x), Some(y)) => x.st_dev == y.st_dev && x.st_ino == y.st_ino,
        _ => false,
    }
}

pub fn SameFile(fi1: &FileInfoData, fi2: &FileInfoData) -> (r: bool)
    ensures
        r == same_file(fi1@, fi2@),
{
    match (fi1.sys, fi2.sys) {
        (Some(a), Some(b)) => a.st_dev == b.st_dev && a.st_ino == b.st_ino,
        _ => false,
    }
}

/// `SameFile` does not depend on the order of its arguments, and holds through
/// a chain.
pub proof fn law_same_file(a: InfoView, b: InfoView, c: InfoView)
    ensures
        same_file(a, b) == same_file(b, a),
        same_file(a, b) && same_file(b, c) ==> same_file(a, c),
        same_file(a, a) == (a.sys is Some),
{
}

/// The type bits of a kernel mode.
pub open spec fn kind_bits(st_mode: u32) -> u32 {
    let kind = st_mode & S_IFMT;
    if kind == S_IFBLK {
        ModeDevice
    } else if kind == S_IFCHR {
        ModeDevice | ModeCharDevice
    } else if kind == S_IFDIR {
        ModeDir
    } else if kind == S_IFIFO {
        ModeNamedPipe
    } else if kind == S_IFLNK {
        ModeSymlink
    } else if kind == S_IFSOCK {
        ModeSocket
    } else {
        0
    }
}

pub open spec fn bit_if(cond: bool, bit: u32) -> u32 {
    if cond {
        bit
    } else {
        0
    }
}

/// The file mode of a kernel mode: permissions, type, and the three special
/// bits.
pub open spec fn mode_of(st_mode: u32) -> FileMode {
    FileMode(
        (st_mode & 0o777) | kind_bits(st_mode) | bit_if(st_mode & S_ISGID != 0, ModeSetgid)
            | bit_if(st_mode & S_ISUID != 0, ModeSetuid) | bit_if(
            st_mode & S_ISVTX != 0,
            ModeSticky,
        ),
    )
}

/// The kernel mode of a file mode: permissions and the three special bits.
pub open spec fn sys_mode(m: FileMode) -> u32 {
    (m.0 & 0o777) | bit_if(m.0 & ModeSetuid != 0, S_ISUID) | bit_if(
        m.0 & ModeSetgid != 0,
        S_ISGID,
    ) | bit_if(m.0 & ModeSticky != 0, S_ISVTX)
}

fn add_bit(m: u32, cond: bool, bit: u32) -> (r: u32)
    ensures
        r == m | bit_if(cond, bit),
{
    if cond {
        m | bit
    } else {
        assert(m | 0u32 == m) by (bit_vector);
        m
    }
}

pub fn syscallMode(i: FileMode) -> (r: u32)
    ensures
        r == sys_mode(i),
{
    let o: u32 = add_bit(i.0 & 0o777, i.0 & ModeSetuid != 0, S_ISUID);
    let o2: u32 = add_bit(o, i.0 & ModeSetgid != 0, S_ISGID);
    add_bit(o2, i.0 & ModeSticky != 0, S_ISVTX)
}

fn kind_of(st_mode: u32) -> (r: u32)
    ensures
        r == kind_bits(st_mode),
{
    let kind: u32 = st_mode & S_IFMT;
    if kind == S_IFBLK {
        ModeDevice
    } else if kind == S_IFCHR {
        ModeDevice | ModeCharDevice
    } else if kind == S_IFDIR {
        ModeDir
    } else if kind == S_IFIFO {
        ModeNamedPipe
    } else if kind == S_IFLNK {
        ModeSymlink
    } else if kind == S_IFSOCK {
        ModeSocket
    } else {
        0
    }
}

pub open spec fn info_of(name: Seq<u8>, st: Stat_t) -> InfoView {
    InfoView {
        name,
        size: st.st_size,
        mode: mode_of(st.st_mode),
        mod_time: Time::Unix { sec: st.st_mtime, nsec: st.st_mtime_nsec },
        is_dir: st.st_mode & S_IFMT == S_IFDIR,
        sys: Some(st),
    }
}

pub fn fileinfo_from_stat(name: Vec<u8>, st: &Stat_t) -> (r: FileInfoData)
    ensures
        r@ == info_of(name@, *st),
{
    let m: u32 = (st.st_mode & 0o777) | kind_of(st.st_mode);
    let m2: u32 = add_bit(m, st.st_mode & S_ISGID != 0, ModeSetgid);
    let m3: u32 = add_bit(m2, st.st_mode & S_ISUID != 0, ModeSetuid);
    let m4: u32 = add_bit(m3, st.st_mode & S_ISVTX != 0, ModeSticky);
    FileInfoData {
        name,
        size: st.st_size,
        mode: FileMode(m4),
        mod_time: Time::Unix { sec: st.st_mtime, nsec: st.st_mtime_nsec },
        is_dir: st.st_mode & S_IFMT == S_IFDIR,
        sys: Some(*st),
    }
}

/// Giving a file the mode that was read from it keeps its permissions and its
/// three special bits.
pub proof fn law_mode_round_trip(st_mode: u32)
    ensures
        sys_mode(mode_of(st_mode)) == st_mode & 0o7777,
{
    let k = kind_bits(st_mode);
    let s = st_mode;
    let g = bit_if(s & 0o2000 != 0, 0x0040_0000);
    let u = bit_if(s & 0o4000 != 0, 0x0080_0000);
    let v = bit_if(s & 0o1000 != 0, 0x0010_0000);
    assert(0x0400_0000u32 | 0x0020_0000u32 == 0x0420_0000u32) by (bit_vector);
    assert(k & 0x00d0_01ff == 0) by (bit_vector)
        requires
            k == 0 || k == 0x0400_0000 || k == 0x0420_0000 || k == 0x8000_0000 || k == 0x0200_0000
                || k == 0x0800_0000 || k == 0x0100_0000,
    ;
    let m = (s & 0o777) | k | g | u | v;
    assert((m & 0o777) == s & 0o777 && (m & 0x0080_0000 != 0) == (s & 0o4000 != 0) && (m
        & 0x0040_0000 != 0) == (s & 0o2000 != 0) && (m & 0x0010_0000 != 0) == (s & 0o1000 != 0))
        by (bit_vector)
        requires
            m == (s & 0o777) | k | g | u | v,
            k & 0x00d0_01ff == 0,
            g == 0 || g == 0x0040_0000,
            (g == 0x0040_0000) == (s & 0o2000 != 0),
            u == 0 || u == 0x0080_0000,
            (u == 0x0080_0000) == (s & 0o4000 != 0),
            v == 0 || v == 0x0010_0000,
            (v == 0x0010_0000) == (s & 0o1000 != 0),
    ;
    let p = s & 0o777;
    let a = bit_if(s & 0o4000 != 0, 0o4000);
    let b = bit_if(s & 0o2000 != 0, 0o2000);
    let c = bit_if(s & 0o1000 != 0, 0o1000);
    assert(p | a | b | c == s & 0o7777) by (bit_vector)
        requires
            p == s & 0o777,
            a == 0 || a == 0o4000,
            (a == 0o4000) == (s & 0o4000 != 0),
            b == 0 || b == 0o2000,
            (b == 0o2000) == (s & 0o2000 != 0),
            c == 0 || c == 0o1000,
            (c == 0o1000) == (s & 0o1000 != 0),
    ;
}

/// A record calls a file a directory exactly when its mode does.
pub proof fn law_is_dir_agrees_with_mode(name: Seq<u8>, st: Stat_t)
    ensures
        info_of(name, st).is_dir == (info_of(name, st).mode.0 & ModeDir != 0),
{
    let s = st.st_mode;
    let k = kind_bits(s);
    let g = bit_if(s & 0o2000 != 0, 0x0040_0000);
    let u = bit_if(s & 0o4000 != 0, 0x0080_0000);
    let v = bit_if(s & 0o1000 != 0, 0x0010_0000);
    let m = (s & 0o777) | k | g | u | v;
    assert(0x0400_0000u32 | 0x0020_0000u32 == 0x0420_0000u32) by (bit_vector);
    assert((m & 0x8000_0000 != 0) == (k == 0x8000_0000)) by (bit_vector)
        requires
            m == (s & 0o777) | k | g | u | v,
            k == 0 || k == 0x0400_0000 || k == 0x0420_0000 || k == 0x8000_0000 || k == 0x0200_0000
                || k == 0x0800_0000 || k == 0x0100_0000,
            g == 0 || g == 0x0040_0000,
            u == 0 || u == 0x0080_0000,
            v == 0 || v == 0x0010_0000,
    ;
}

/// The mode type of a directory record's type byte.
pub open spec fn dirent_mode(dt: u8) -> FileMode {
    if dt == DT_BLK {
        FileMode(ModeDevice)
    } else if dt == DT_CHR {
        FileMode(ModeDevice | ModeCharDevice)
    } else if dt == DT_DIR {
        FileMode(ModeDir)
    } else if dt == DT_FIFO {
        FileMode(ModeNamedPipe)
    } else if dt == DT_LNK {
        FileMode(ModeSymlink)
    } else if dt == DT_REG {
        FileMode(0)
    } else if dt == DT_SOCK {
        FileMode(ModeSocket)
    } else {
        FileMode(TYPE_UNKNOWN)
    }
}

pub fn direntType(dt: u8) -> (r: FileMode)
    ensures
        r == dirent_mode(dt),
{
    if dt == DT_BLK {
        FileMode(ModeDevice)
    } else if dt == DT_CHR {
        FileMode(ModeDevice | ModeCharDevice)
    } else if dt == DT_DIR {
        FileMode(ModeDir)
    } else if dt == DT_FIFO {
        FileMode(ModeNamedPipe)
    } else if dt == DT_LNK {
        FileMode(ModeSymlink)
    } else if dt == DT_REG {
        FileMode(0)
    } else if dt == DT_SOCK {
        FileMode(ModeSocket)
    } else {
        FileMode(TYPE_UNKNOWN)
    }
}

// ---- names ----

/// End of `p` without its trailing slashes.
pub open spec fn trimmed_len(p: Seq<u8>) -> nat
    decreases p.len(),
{
    if p.len() > 0 && p.last() == 47 {
        trimmed_len(p.drop_last())
    } else {
        p.len()
    }
}

/// The part of `p` after its last slash.
pub open spec fn after_slash(p: Seq<u8>) -> Seq<u8>
    decreases p.len(),
{
    if p.len() == 0 || p.last() == 47 {
        Seq::empty()
    } else {
        after_slash(p.drop_last()).push(p.last())
    }
}

/// The last element of a path, trailing slashes aside.
pub open spec fn base_of(p: Seq<u8>) -> Seq<u8> {
    after_slash(p.subrange(0, trimmed_len(p) as int))
}

proof fn lemma_after_slash(p: Seq<u8>, start: int)
    requires
        0 <= start <= p.len(),
        forall|i: int| start <= i < p.len() ==> #[trigger] p[i] != 47,
        start > 0 ==> p[start - 1] == 47,
    ensures
        after_slash(p) == p.subrange(start, p.len() as int),
    decreases p.len(),
{
    if start < p.len() {
        assert forall|i: int| start <= i < p.len() - 1 implies #[trigger] p.drop_last()[i]
            != 47 by {
            assert(p[i] != 47);
        }
        lemma_after_slash(p.drop_last(), start);
        assert(p.drop_last().subrange(start, p.len() - 1).push(p.last()) =~= p.subrange(
            start,
            p.len() as int,
        ));
    } else {
        assert(p.subrange(start, p.len() as int) =~= Seq::empty());
    }
}

pub fn base_name(p: &Vec<u8>) -> (r: Vec<u8>)
    ensures
        r@ == base_of(p@),
{
    let mut end: usize = p.len();
    assert(p@.subrange(0, end as int) =~= p@);
    while end > 0 && p[end - 1] == 47
        invariant
            end <= p.len(),
            trimmed_len(p@) == trimmed_len(p@.subrange(0, end as int)),
        decreases end,
    {
        assert(p@.subrange(0, end as int).drop_last() =~= p@.subrange(0, end - 1));
        end = end - 1;
    }
    let mut start: usize = end;
    while start > 0 && p[start - 1] != 47
        invariant
            start <= end <= p.len(),
            forall|i: int| start <= i < end ==> #[trigger] p@[i] != 47,
        decreases start,
    {
        start = start - 1;
    }
    let ghost head = p@.subrange(0, end as int);
    proof {
        lemma_after_slash(head, start as int);
        assert(head.subrange(start as int, end as int) =~= p@.subrange(start as int, end as int));
    }
    dwarf_util::copy_range(p.as_slice(), start, end)
}

proof fn lemma_after_slash_plain(p: Seq<u8>)
    ensures
        forall|i: int| 0 <= i < after_slash(p).len() ==> #[trigger] after_slash(p)[i] != 47,
    decreases p.len(),
{
    if p.len() > 0 && p.last() != 47 {
        let t = after_slash(p.drop_last());
        lemma_after_slash_plain(p.drop_last());
        assert forall|i: int| 0 <= i < after_slash(p).len() implies #[trigger] after_slash(p)[i]
            != 47 by {
            if i < t.len() {
                assert(t[i] != 47);
            }
        }
    }
}

/// A base name holds no slash.
pub proof fn law_base_has_no_slash(p: Seq<u8>)
    ensures
        forall|i: int| 0 <= i < base_of(p).len() ==> #[trigger] base_of(p)[i] != 47,
{
    lemma_after_slash_plain(p.subrange(0, trimmed_len(p) as int));
}

/// What a mode says is what the kernel's mode says: the permissions, exactly
/// one kind of file or a plain one, and each of the three special bits.
pub proof fn law_mode_says_what_the_kernel_says(st_mode: u32)
    ensures
        ({
            let m = mode_of(st_mode).0;
            let kind = st_mode & 0o170000;
            &&& m & 0o777 == st_mode & 0o777
            &&& (m & 0x8000_0000 != 0) == (kind == 0o040000)
            &&& (m & 0x0800_0000 != 0) == (kind == 0o120000)
            &&& (m & 0x0400_0000 != 0) == (kind == 0o060000 || kind == 0o020000)
            &&& (m & 0x0200_0000 != 0) == (kind == 0o010000)
            &&& (m & 0x0100_0000 != 0) == (kind == 0o140000)
            &&& (m & 0x0020_0000 != 0) == (kind == 0o020000)
            &&& (m & 0x0080_0000 != 0) == (st_mode & 0o4000 != 0)
            &&& (m & 0x0040_0000 != 0) == (st_mode & 0o2000 != 0)
            &&& (m & 0x0010_0000 != 0) == (st_mode & 0o1000 != 0)
            &&& m & 0x700f_fe00 == 0
        }),
{
    let s = st_mode;
    let t = s & 0o170000;
    let k = kind_bits(s);
    let g = bit_if(s & 0o2000 != 0, 0x0040_0000);
    let u = bit_if(s & 0o4000 != 0, 0x0080_0000);
    let v = bit_if(s & 0o1000 != 0, 0x0010_0000);
    let m = (s & 0o777) | k | g | u | v;
    assert(0x0400_0000u32 | 0x0020_0000u32 == 0x0420_0000u32) by (bit_vector);
    assert(m & 0o777 == s & 0o777 && (m & 0x8000_0000 != 0) == (k == 0x8000_0000) && (m
        & 0x0800_0000 != 0) == (k == 0x0800_0000) && (m & 0x0400_0000 != 0) == (k == 0x0400_0000
        || k == 0x0420_0000) && (m & 0x0200_0000 != 0) == (k == 0x0200_0000) && (m & 0x0100_0000
        != 0) == (k == 0x0100_0000) && (m & 0x0020_0000 != 0) == (k == 0x0420_0000) && (m
        & 0x0080_0000 != 0) == (u != 0) && (m & 0x0040_0000 != 0) == (g != 0) && (m & 0x0010_0000
        != 0) == (v != 0) && m & 0x700f_fe00 == 0) by (bit_vector)
        requires
            m == (s & 0o777) | k | g | u | v,
            k == 0 || k == 0x0400_0000 || k == 0x0420_0000 || k == 0x8000_0000 || k == 0x0200_0000
                || k == 0x0800_0000 || k == 0x0100_0000,
            g == 0 || g == 0x0040_0000,
            u == 0 || u == 0x0080_0000,
            v == 0 || v == 0x0010_0000,
    ;
}

/// The mode that is given to the kernel says what the mode says: the
/// permissions and each of the three special bits, and nothing else.
pub proof fn law_kernel_mode_says_what_the_mode_says(m: FileMode)
    ensures
        sys_mode(m) & 0o777 == m.0 & 0o777,
        (sys_mode(m) & 0o4000 != 0) == (m.0 & 0x0080_0000 != 0),
        (sys_mode(m) & 0o2000 != 0) == (m.0 & 0x0040_0000 != 0),
        (sys_mode(m) & 0o1000 != 0) == (m.0 & 0x0010_0000 != 0),
        sys_mode(m) < 0o10000,
{
    let p = m.0;
    let a = bit_if(p & 0x0080_0000 != 0, 0o4000);
    let b = bit_if(p & 0x0040_0000 != 0, 0o2000);
    let c = bit_if(p & 0x0010_0000 != 0, 0o1000);
    let r = (p & 0o777) | a | b | c;
    assert(r & 0o777 == p & 0o777 && (r & 0o4000 != 0) == (a != 0) && (r & 0o2000 != 0) == (b != 0)
        && (r & 0o1000 != 0) == (c != 0) && r < 0o10000) by (bit_vector)
        requires
            r == (p & 0o777) | a | b | c,
            a == 0 || a == 0o4000,
            b == 0 || b == 0o2000,
            c == 0 || c == 0o1000,
    ;
}

/// The type in a directory record means the same kind of file as the kernel's
/// mode of that file: the type is its top four bits.
pub proof fn law_record_type_agrees_with_mode(dt: u8, st_mode: u32)
    requires
        st_mode & 0o170000 == 0o10000 * dt,
        dt == 1 || dt == 2 || dt == 4 || dt == 6 || dt == 8 || dt == 10 || dt == 12,
    ensures
        dirent_mode(dt).0 == kind_bits(st_mode),
{
}

/// What is known of a file is what the kernel reported.
pub proof fn law_info_is_the_kernels(name: Seq<u8>, st: Stat_t)
    ensures
        info_of(name, st).name == name,
        info_of(name, st).size == st.st_size,
        info_of(name, st).mod_time == (Time::Unix { sec: st.st_mtime, nsec: st.st_mtime_nsec }),
        info_of(name, st).is_dir == (st.st_mode & 0o170000 == 0o040000),
        info_of(name, st).sys == Some(st),
{
}

/// The base name of `dir/name` is the name, whatever the directory, and
/// slashes at the end of the path do not count.
pub proof fn law_base_is_the_last_element(dir: Seq<u8>, name: Seq<u8>, slashes: nat)
    requires
        name.len() > 0,
        forall|i: int| 0 <= i < name.len() ==> #[trigger] name[i] != '/' as u8,
    ensures
        base_of(dir + seq!['/' as u8] + name + Seq::new(slashes, |i: int| '/' as u8)) == name,
        base_of(name + Seq::new(slashes, |i: int| '/' as u8)) == name,
{
    let a = dir + seq!['/' as u8] + name;
    lemma_trim(a, slashes);
    assert((a + Seq::new(slashes, |i: int| 47u8)).subrange(0, a.len() as int) =~= a);
    assert forall|i: int| dir.len() + 1 <= i < a.len() implies #[trigger] a[i] != 47 by {
        assert(a[i] == name[i - dir.len() - 1]);
    }
    lemma_after_slash(a, dir.len() as int + 1);
    assert(a.subrange(dir.len() as int + 1, a.len() as int) =~= name);
    lemma_trim(name, slashes);
    assert((name + Seq::new(slashes, |i: int| 47u8)).subrange(0, name.len() as int) =~= name);
    lemma_after_slash(name, 0);
    assert(name.subrange(0, name.len() as int) =~= name);
}

proof fn lemma_trim(p: Seq<u8>, n: nat)
    requires
        p.len() > 0,
        p.last() != 47,
    ensures
        trimmed_len(p + Seq::new(n, |i: int| 47u8)) == p.len(),
    decreases n,
{
    let q = p + Seq::new(n, |i: int| 47u8);
    if n > 0 {
        lemma_trim(p, (n - 1) as nat);
        assert(q.drop_last() =~= p + Seq::new((n - 1) as nat, |i: int| 47u8));
    } else {
        assert(q =~= p);
    }
}

} // verus!
