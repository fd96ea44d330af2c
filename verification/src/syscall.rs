//! Requests to the kernel, as values. The library decides which call comes
//! next and what its answer means; the caller performs it.

use vstd::prelude::*;

verus! {

/// The systems that the library runs on.
#[derive(Clone, Copy, Debug, PartialEq, Eq, Structural)]
pub enum Target {
    LinuxAmd64,
    LinuxArm64,
    DarwinArm64,
}

/// Numbers that are not the same on every system.
#[derive(Clone, Copy, Debug, PartialEq, Eq, Structural)]
pub struct Numbers {
    pub o_create: i64,
    pub o_excl: i64,
    pub o_trunc: i64,
    pub o_append: i64,
    pub o_sync: i64,
    pub o_cloexec: i32,
    pub at_fdcwd: i32,
    pub utime_omit: i64,
    pub eagain: i64,
    /// The clock that does not advance while the machine sleeps.
    pub nanotime_clock: i32,
}

/// The numbers of a system.
pub open spec fn numbers_of(t: Target) -> Numbers {
    match t {
        Target::DarwinArm64 => Numbers {
            o_create: 0x200,
            o_excl: 0x800,
            o_trunc: 0x400,
            o_append: 0x8,
            o_sync: 0x80,
            o_cloexec: 0x100_0000,
            at_fdcwd: (-2) as i32,
            utime_omit: (-2) as i64,
            eagain: 35,
            nanotime_clock: 8,
        },
        _ => Numbers {
            o_create: O_CREATE,
            o_excl: O_EXCL,
            o_trunc: O_TRUNC,
            o_append: O_APPEND,
            o_sync: O_SYNC,
            o_cloexec: O_CLOEXEC,
            at_fdcwd: AT_FDCWD,
            utime_omit: UTIME_OMIT,
            eagain: EAGAIN,
            nanotime_clock: NANOTIME_CLOCK,
        },
    }
}

impl Target {
    pub fn numbers(&self) -> (r: Numbers)
        ensures
            r == numbers_of(*self),
    {
        match self {
            Target::DarwinArm64 => Numbers {
                o_create: 0x200,
                o_excl: 0x800,
                o_trunc: 0x400,
                o_append: 0x8,
                o_sync: 0x80,
                o_cloexec: 0x100_0000,
                at_fdcwd: -2,
                utime_omit: -2,
                eagain: 35,
                nanotime_clock: 8,
            },
            _ => Numbers {
                o_create: O_CREATE,
                o_excl: O_EXCL,
                o_trunc: O_TRUNC,
                o_append: O_APPEND,
                o_sync: O_SYNC,
                o_cloexec: O_CLOEXEC,
                at_fdcwd: AT_FDCWD,
                utime_omit: UTIME_OMIT,
                eagain: EAGAIN,
                nanotime_clock: NANOTIME_CLOCK,
            },
        }
    }
}

// The numbers from here on are those of Linux; where another system has its
// own, `numbers` gives it.

pub const O_RDONLY: i64 = 0;

pub const O_WRONLY: i64 = 1;

pub const O_RDWR: i64 = 2;

pub const O_CREATE: i64 = 0o100;

pub const O_EXCL: i64 = 0o200;

pub const O_TRUNC: i64 = 0o1000;

pub const O_APPEND: i64 = 0o2000;

pub const O_SYNC: i64 = 0o4010000;

pub const O_CLOEXEC: i32 = 0o2000000;

pub const AT_FDCWD: i32 = -100;

/// Tells the kernel to leave a time alone.
pub const UTIME_OMIT: i64 = 0x3fff_fffe;

pub const EAGAIN: i64 = 11;

pub const NANOTIME_CLOCK: i32 = 1;

pub const S_IFMT: u32 = 0o170000;

pub const S_IFSOCK: u32 = 0o140000;

pub const S_IFLNK: u32 = 0o120000;

pub const S_IFBLK: u32 = 0o060000;

pub const S_IFDIR: u32 = 0o040000;

pub const S_IFCHR: u32 = 0o020000;

pub const S_IFIFO: u32 = 0o010000;

pub const S_ISUID: u32 = 0o4000;

pub const S_ISGID: u32 = 0o2000;

pub const S_ISVTX: u32 = 0o1000;

pub const DT_FIFO: u8 = 1;

pub const DT_CHR: u8 = 2;

pub const DT_DIR: u8 = 4;

pub const DT_BLK: u8 = 6;

pub const DT_REG: u8 = 8;

pub const DT_LNK: u8 = 10;

pub const DT_SOCK: u8 = 12;

#[derive(Clone, Copy, Debug, PartialEq, Eq, Structural)]
pub struct Timespec {
    pub tv_sec: i64,
    pub tv_nsec: i64,
}

/// What the kernel reports of a file.
#[derive(Clone, Copy, Debug, Default, PartialEq, Eq, Structural)]
pub struct Stat_t {
    pub st_dev: u64,
    pub st_ino: u64,
    pub st_nlink: u64,
    pub st_mode: u32,
    pub st_uid: u32,
    pub st_gid: u32,
    pub st_rdev: u64,
    pub st_size: i64,
    pub st_blksize: i64,
    pub st_blocks: i64,
    pub st_atime: i64,
    pub st_atime_nsec: i64,
    pub st_mtime: i64,
    pub st_mtime_nsec: i64,
    pub st_ctime: i64,
    pub st_ctime_nsec: i64,
}

/// A call for the kernel. Paths end in a NUL byte. Reads and writes name the
/// part of the caller's buffer that they are about.
#[allow(inconsistent_fields)]
#[derive(Debug)]
pub enum Call {
    Open { path: Vec<u8>, flags: i32, mode: i32 },
    Stat { path: Vec<u8> },
    Lstat { path: Vec<u8> },
    Fstat { fd: i32 },
    Chdir { path: Vec<u8> },
    Fchdir { fd: i32 },
    Chmod { path: Vec<u8>, mode: u32 },
    Fchmod { fd: i32, mode: u32 },
    Symlink { old: Vec<u8>, new: Vec<u8> },
    Readlink { path: Vec<u8>, size: usize },
    Utimensat { dirfd: i32, path: Vec<u8>, atime: Timespec, mtime: Timespec, flags: i32 },
    Rename { old: Vec<u8>, new: Vec<u8> },
    Link { old: Vec<u8>, new: Vec<u8> },
    Truncate { path: Vec<u8>, size: i64 },
    Ftruncate { fd: i32, size: i64 },
    Chown { path: Vec<u8>, uid: i32, gid: i32 },
    Lchown { path: Vec<u8>, uid: i32, gid: i32 },
    Fchown { fd: i32, uid: u32, gid: u32 },
    Getgroups { size: i32 },
    Pipe2 { flags: i32 },
    Uname,
    Mkdir { path: Vec<u8>, mode: u32 },
    Unlink { path: Vec<u8> },
    Rmdir { path: Vec<u8> },
    Getcwd { size: usize },
    Lseek { fd: i32, offset: i64, whence: i32 },
    Close { fd: i32 },
    Fsync { fd: i32 },
    Pread { fd: i32, start: usize, len: usize, at: i64 },
    Pwrite { fd: i32, len: usize, at: i64 },
    Write { fd: i32, start: usize, len: usize },
    Read { fd: i32, len: usize },
    Getdents { fd: i32, len: usize },
    Kill { pid: i32, sig: i32 },
    Wait4 { pid: i32, options: i32 },
    Exit { code: i32 },
}

/// The flags of an open, by system: they are single bits, or hold one, that
/// stand apart from each other and from the access modes.
pub proof fn law_open_flags(t: Target)
    ensures
        t == Target::DarwinArm64 ==> numbers_of(t).o_create == 512 && numbers_of(t).o_trunc == 1024
            && numbers_of(t).o_excl == 2048 && numbers_of(t).o_append == 8 && numbers_of(t).o_sync
            == 128 && numbers_of(t).o_cloexec == 16777216,
        t != Target::DarwinArm64 ==> numbers_of(t).o_create == 64 && numbers_of(t).o_trunc == 512
            && numbers_of(t).o_excl == 128 && numbers_of(t).o_append == 1024 && numbers_of(t).o_sync
            == 1052672 && numbers_of(t).o_cloexec == 524288,
{
}

/// The other numbers, by system.
pub proof fn law_system_numbers(t: Target)
    ensures
        t == Target::DarwinArm64 ==> numbers_of(t).at_fdcwd == -2 && numbers_of(t).utime_omit == -2
            && numbers_of(t).eagain == 35 && numbers_of(t).nanotime_clock == 8,
        t != Target::DarwinArm64 ==> numbers_of(t).at_fdcwd == -100 && numbers_of(t).utime_omit
            == 1073741822 && numbers_of(t).eagain == 11 && numbers_of(t).nanotime_clock == 1,
{
}

} // verus!
