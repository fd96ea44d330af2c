//! Operations on paths and on the process: which call each of them makes, and
//! what the kernel's answer means.

use vstd::prelude::*;

use crate::errors::{errno, linkErr, message, pathErr, Cause, Error, NewSyscallError, EEXIST, ENOTDIR};
use crate::file::File;
use crate::fileinfo::{
    base_name, empty_info, fileinfo_from_stat, syscallMode, FileInfoData, FileMode, SameFile, };
use crate::gostr::{append, c_string, concat, copy_bytes, cut_at_nul, same_bytes, text};
use crate::syscall::{
    Call, Stat_t, Target, Timespec, O_RDONLY, O_RDWR,
};
use crate::{dwarf_util, errors, fileinfo, gostr, line, syscall};

verus! {

use crate::errors::{CauseView, ErrorView};
use crate::fileinfo::InfoView;

pub const PathSeparator: u8 = 47;

pub const PathListSeparator: u8 = 58;

pub fn IsPathSeparator(c: u8) -> (r: bool)
    ensures
        r == (c == PathSeparator),
{
    c == PathSeparator
}

/// An operation on one path, waiting for the kernel's answer.
pub struct PathOp {
    pub op: Vec<u8>,
    pub path: Vec<u8>,
}

pub open spec fn path_failure(op: Seq<u8>, path: Seq<u8>, rc: i64) -> Option<ErrorView> {
    if rc < 0 {
        Some(ErrorView::Path { op, path, err: errors::errno_of(rc) })
    } else {
        None
    }
}

impl PathOp {
    pub open spec fn is(&self, op: Seq<u8>, path: Seq<u8>) -> bool {
        self.op@ == op && self.path@ == path
    }

    /// A negative answer is an error that names the operation and the path.
    pub fn done(self, rc: i64) -> (r: Option<Error>)
        requires
            errors::valid_rc(rc),
        ensures
            errors::err_view(r) == path_failure(self.op@, self.path@, rc),
    {
        if rc < 0 {
            Some(pathErr(self.op.as_slice(), self.path.as_slice(), errno(rc)))
        } else {
            None
        }
    }
}

fn path_op(op: &str, path: &Vec<u8>) -> (r: PathOp)
    ensures
        r.is(gostr::lit(op), path@),
{
    PathOp { op: text(op), path: copy_bytes(path.as_slice()) }
}

/// An operation on two paths, waiting for the kernel's answer.
pub struct LinkOp {
    pub op: Vec<u8>,
    pub old_path: Vec<u8>,
    pub new_path: Vec<u8>,
}

pub open spec fn link_failure(op: Seq<u8>, old_path: Seq<u8>, new_path: Seq<u8>, rc: i64) -> Option<
    ErrorView,
> {
    if rc < 0 {
        Some(ErrorView::Link { op, old: old_path, new: new_path, err: errors::errno_of(rc) })
    } else {
        None
    }
}

impl LinkOp {
    pub open spec fn is(&self, op: Seq<u8>, old_path: Seq<u8>, new_path: Seq<u8>) -> bool {
        self.op@ == op && self.old_path@ == old_path && self.new_path@ == new_path
    }

    /// A negative answer is an error that names the operation and both paths.
    pub fn done(self, rc: i64) -> (r: Option<Error>)
        requires
            errors::valid_rc(rc),
        ensures
            errors::err_view(r) == link_failure(self.op@, self.old_path@, self.new_path@, rc),
    {
        if rc < 0 {
            Some(
                linkErr(
                    self.op.as_slice(),
                    self.old_path.as_slice(),
                    self.new_path.as_slice(),
                    errno(rc),
                ),
            )
        } else {
            None
        }
    }
}

fn link_op(op: &str, old_path: &Vec<u8>, new_path: &Vec<u8>) -> (r: LinkOp)
    ensures
        r.is(gostr::lit(op), old_path@, new_path@),
{
    LinkOp {
        op: text(op),
        old_path: copy_bytes(old_path.as_slice()),
        new_path: copy_bytes(new_path.as_slice()),
    }
}

/// Makes a directory the current one.
pub fn Chdir(name: &Vec<u8>) -> (r: (Call, PathOp))
    ensures
        r.0 matches Call::Chdir { path } && path@ == gostr::c_path(name@),
        r.1.is(gostr::lit("chdir"), name@),
{
    (Call::Chdir { path: c_string(name) }, path_op("chdir", name))
}

/// Sets the mode of a file.
pub fn Chmod(name: &Vec<u8>, mode: FileMode) -> (r: (Call, PathOp))
    ensures
        r.0 matches Call::Chmod { path, mode: m } && path@ == gostr::c_path(name@) && m == fileinfo::sys_mode(mode),
        r.1.is(gostr::lit("chmod"), name@),
{
    (Call::Chmod { path: c_string(name), mode: syscallMode(mode) }, path_op("chmod", name))
}

/// Makes a directory.
pub fn Mkdir(name: &Vec<u8>, perm: FileMode) -> (r: (Call, PathOp))
    ensures
        r.0 matches Call::Mkdir { path, mode: m } && path@ == gostr::c_path(name@) && m == fileinfo::sys_mode(perm),
        r.1.is(gostr::lit("mkdir"), name@),
{
    (Call::Mkdir { path: c_string(name), mode: syscallMode(perm) }, path_op("mkdir", name))
}

/// Sets the length of a file.
pub fn Truncate(name: &Vec<u8>, size: i64) -> (r: (Call, PathOp))
    ensures
        r.0 matches Call::Truncate { path, size: s } && path@ == gostr::c_path(name@) && s == size,
        r.1.is(gostr::lit("truncate"), name@),
{
    (Call::Truncate { path: c_string(name), size }, path_op("truncate", name))
}

/// Sets the owner of a file; the numbers are cut to 32 bits.
pub fn Chown(name: &Vec<u8>, uid: i64, gid: i64) -> (r: (Call, PathOp))
    ensures
        r.0 matches Call::Chown { path, uid: u, gid: g } && path@ == gostr::c_path(name@) && u == uid as i32 && g == gid as i32,
        r.1.is(gostr::lit("chown"), name@),
{
    (Call::Chown { path: c_string(name), uid: uid as i32, gid: gid as i32 }, path_op("chown", name))
}

/// Sets the owner of a file without following a link.
pub fn Lchown(name: &Vec<u8>, uid: i64, gid: i64) -> (r: (Call, PathOp))
    ensures
        r.0 matches Call::Lchown { path, uid: u, gid: g } && path@ == gostr::c_path(name@) && u == uid as i32 && g == gid as i32,
        r.1.is(gostr::lit("lchown"), name@),
{
    (Call::Lchown { path: c_string(name), uid: uid as i32, gid: gid as i32 }, path_op("lchown", name))
}

/// Makes `newname` a symbolic link to `oldname`.
pub fn Symlink(oldname: &Vec<u8>, newname: &Vec<u8>) -> (r: (Call, LinkOp))
    ensures
        r.0 matches Call::Symlink { old: o, new: n } && o@ == gostr::c_path(oldname@) && n@ == gostr::c_path(newname@),
        r.1.is(gostr::lit("symlink"), oldname@, newname@),
{
    (
        Call::Symlink { old: c_string(oldname), new: c_string(newname) },
        link_op("symlink", oldname, newname),
    )
}

/// Makes `newname` a hard link to `oldname`.
pub fn Link(oldname: &Vec<u8>, newname: &Vec<u8>) -> (r: (Call, LinkOp))
    ensures
        r.0 matches Call::Link { old: o, new: n } && o@ == gostr::c_path(oldname@) && n@ == gostr::c_path(newname@),
        r.1.is(gostr::lit("link"), oldname@, newname@),
{
    (
        Call::Link { old: c_string(oldname), new: c_string(newname) },
        link_op("link", oldname, newname),
    )
}

// ---- opening ----

/// An open waiting for its descriptor.
pub struct OpenOp {
    pub name: Vec<u8>,
}

/// `r` follows the kernel's answer to an open.
pub open spec fn opened(name: Seq<u8>, fd: i32, r: Result<File, Error>) -> bool {
    match r {
        Ok(f) => fd >= 0 && f.fd == fd && f.name@ == name && f.dirinfo is None,
        Err(e) => fd < 0 && Some(e@) == path_failure(gostr::lit("open"), name, fd as i64),
    }
}

impl OpenOp {
    /// The file of a descriptor, or the error of a negative one.
    pub fn done(self, fd: i32) -> (r: Result<File, Error>)
        requires
            errors::valid_rc(fd as i64),
        ensures
            opened(self.name@, fd, r),
    {
        if fd < 0 {
            Err(pathErr(text("open").as_slice(), self.name.as_slice(), errno(fd as i64)))
        } else {
            Ok(File { fd, name: self.name, dirinfo: None })
        }
    }
}

/// Whether `c` opens `name` with these flags and permissions, and closed on
/// exec.
pub open spec fn opens(c: Call, t: Target, name: Seq<u8>, flag: i64, perm: FileMode) -> bool {
    c matches Call::Open { path, flags, mode } && path@ == gostr::c_path(name) && flags == (flag as i32)
        | syscall::numbers_of(t).o_cloexec && mode == fileinfo::sys_mode(perm) as i32
}

/// The flags with which a file is made, or emptied, for writing.
pub open spec fn making(t: Target, access: i64) -> i64 {
    access | syscall::numbers_of(t).o_create | syscall::numbers_of(t).o_trunc
}

pub fn OpenFile(t: Target, name: &Vec<u8>, flag: i64, perm: FileMode) -> (r: (Call, OpenOp))
    ensures
        opens(r.0, t, name@, flag, perm),
        r.1.name@ == name@,
{
    (
        Call::Open {
            path: c_string(name),
            flags: (flag as i32) | t.numbers().o_cloexec,
            mode: syscallMode(perm) as i32,
        },
        OpenOp { name: copy_bytes(name.as_slice()) },
    )
}

/// Opens for reading.
pub fn Open(t: Target, name: &Vec<u8>) -> (r: (Call, OpenOp))
    ensures
        opens(r.0, t, name@, O_RDONLY, FileMode(0)),
        r.1.name@ == name@,
{
    OpenFile(t, name, O_RDONLY, FileMode(0))
}

/// Makes or empties a file, open for reading and writing.
pub fn Create(t: Target, name: &Vec<u8>) -> (r: (Call, OpenOp))
    ensures
        opens(r.0, t, name@, making(t, O_RDWR), FileMode(0o666)),
        r.1.name@ == name@,
{
    let n = t.numbers();
    OpenFile(t, name, O_RDWR | n.o_create | n.o_trunc, FileMode(0o666))
}

// ---- examining ----

/// An examination of a path, waiting for the kernel's answer.
pub struct StatOp {
    pub op: Vec<u8>,
    pub name: Vec<u8>,
}

impl StatOp {
    pub open spec fn is(&self, op: Seq<u8>, name: Seq<u8>) -> bool {
        self.op@ == op && self.name@ == name
    }

    /// What the kernel said of the file, under the last element of its path.
    pub fn done(self, rc: i64, st: &Stat_t) -> (r: (FileInfoData, Option<Error>))
        requires
            errors::valid_rc(rc),
        ensures
            errors::err_view(r.1) == path_failure(self.op@, self.name@, rc),
            r.0@ == stat_result(self.name@, rc, *st),
    {
        if rc < 0 {
            return (
                empty_info(self.name.as_slice()),
                Some(pathErr(self.op.as_slice(), self.name.as_slice(), errno(rc))),
            );
        }
        (fileinfo_from_stat(base_name(&self.name), st), None)
    }
}

pub open spec fn stat_result(name: Seq<u8>, rc: i64, st: Stat_t) -> InfoView {
    if rc < 0 {
        fileinfo::no_info(name)
    } else {
        fileinfo::info_of(fileinfo::base_of(name), st)
    }
}

pub fn Stat(name: &Vec<u8>) -> (r: (Call, StatOp))
    ensures
        r.0 matches Call::Stat { path } && path@ == gostr::c_path(name@),
        r.1.is(gostr::lit("stat"), name@),
{
    (
        Call::Stat { path: c_string(name) },
        StatOp { op: text("stat"), name: copy_bytes(name.as_slice()) },
    )
}

pub fn Lstat(name: &Vec<u8>) -> (r: (Call, StatOp))
    ensures
        r.0 matches Call::Lstat { path } && path@ == gostr::c_path(name@),
        r.1.is(gostr::lit("lstat"), name@),
{
    (
        Call::Lstat { path: c_string(name) },
        StatOp { op: text("lstat"), name: copy_bytes(name.as_slice()) },
    )
}

// ---- times ----

/// A file time for the kernel: an unset time leaves the file's time alone,
/// another is whole seconds and a non-negative rest.
pub open spec fn timespec_of(sys: Target, t: Option<i64>) -> Timespec {
    match t {
        None => Timespec {
            tv_sec: syscall::numbers_of(sys).utime_omit,
            tv_nsec: syscall::numbers_of(sys).utime_omit,
        },
        Some(ns) => Timespec {
            tv_sec: (ns as int / 1_000_000_000) as i64,
            tv_nsec: (ns as int % 1_000_000_000) as i64,
        },
    }
}

/// A set time becomes seconds and a rest below one second that add up to it.
pub proof fn law_file_time_adds_up(sys: Target, ns: i64)
    ensures
        0 <= timespec_of(sys, Some(ns)).tv_nsec < 1_000_000_000,
        timespec_of(sys, Some(ns)).tv_sec * 1_000_000_000 + timespec_of(sys, Some(ns)).tv_nsec == ns,
{
}

fn file_time(sys: Target, t: Option<i64>) -> (r: Timespec)
    ensures
        r == timespec_of(sys, t),
{
    let omit: i64 = sys.numbers().utime_omit;
    match t {
        None => Timespec { tv_sec: omit, tv_nsec: omit },
        Some(ns) => if ns >= 0 {
            let m: u64 = ns as u64;
            Timespec { tv_sec: (m / 1_000_000_000) as i64, tv_nsec: (m % 1_000_000_000) as i64 }
        } else {
            let m: u64 = (-(ns + 1)) as u64;
            Timespec {
                tv_sec: -((m / 1_000_000_000) as i64) - 1,
                tv_nsec: 999_999_999 - (m % 1_000_000_000) as i64,
            }
        },
    }
}

/// Sets the times of a file. A time is nanoseconds since the epoch, or nothing
/// for the time that was never set.
pub fn Chtimes(sys: Target, name: &Vec<u8>, atime: Option<i64>, mtime: Option<i64>) -> (r: (
    Call,
    PathOp,
))
    ensures
        r.0 matches Call::Utimensat { dirfd, path, atime: a, mtime: m, flags } && dirfd
            == syscall::numbers_of(sys).at_fdcwd && path@ == gostr::c_path(name@) && a
            == timespec_of(sys, atime) && m == timespec_of(sys, mtime) && flags == 0,
        r.1.is(gostr::lit("chtimes"), name@),
{
    (
        Call::Utimensat {
            dirfd: sys.numbers().at_fdcwd,
            path: c_string(name),
            atime: file_time(sys, atime),
            mtime: file_time(sys, mtime),
            flags: 0,
        },
        path_op("chtimes", name),
    )
}

// ---- removing ----

pub enum Removing {
    Unlinking { name: Vec<u8> },
    /// The unlink was refused with this code.
    Rmdiring { name: Vec<u8>, e: i64 },
}

pub enum RemoveStep {
    Call(Call, Removing),
    Done(Option<Error>),
}

pub fn Remove(name: &Vec<u8>) -> (r: (Call, Removing))
    ensures
        r.0 matches Call::Unlink { path } && path@ == gostr::c_path(name@),
        r.1 matches Removing::Unlinking { name: n } && n@ == name@,
{
    (
        Call::Unlink { path: c_string(name) },
        Removing::Unlinking { name: copy_bytes(name.as_slice()) },
    )
}

/// The refusal to report: that of the directory removal, unless it only says
/// that the path is no directory.
pub open spec fn remove_error(name: Seq<u8>, e: i64, e1: i64) -> ErrorView {
    ErrorView::Path {
        op: gostr::lit("remove"),
        path: name,
        err: if -e1 != ENOTDIR {
            errors::errno_of(e1)
        } else {
            errors::errno_of(e)
        },
    }
}

/// `r` follows the kernel's answer to a removal.
pub open spec fn remove_next(s: Removing, rc: i64, r: RemoveStep) -> bool {
    match s {
        Removing::Unlinking { name } => if rc == 0 {
            r == RemoveStep::Done(None)
        } else {
            r matches RemoveStep::Call(Call::Rmdir { path }, Removing::Rmdiring { name: n, e })
                && path@ == gostr::c_path(name@) && n@ == name@ && e == rc
        },
        Removing::Rmdiring { name, e } => r matches RemoveStep::Done(err) && errors::err_view(err)
            == (if rc == 0 {
            None
        } else {
            Some(remove_error(name@, e, rc))
        }),
    }
}

impl Removing {
    /// A refused unlink is tried as a directory removal.
    pub fn done(self, rc: i64) -> (r: RemoveStep)
        requires
            errors::valid_rc(rc),
            rc <= 0,
            self matches Removing::Rmdiring { name, e } ==> errors::valid_rc(e) && e < 0,
        ensures
            remove_next(self, rc, r),
    {
        match self {
            Removing::Unlinking { name } => if rc == 0 {
                RemoveStep::Done(None)
            } else {
                RemoveStep::Call(
                    Call::Rmdir { path: c_string(&name) },
                    Removing::Rmdiring { name, e: rc },
                )
            },
            Removing::Rmdiring { name, e } => if rc == 0 {
                RemoveStep::Done(None)
            } else {
                let cause = if -rc != ENOTDIR as i64 {
                    errno(rc)
                } else {
                    errno(e)
                };
                RemoveStep::Done(
                    Some(pathErr(text("remove").as_slice(), name.as_slice(), cause)),
                )
            },
        }
    }
}

// ---- renaming ----

pub enum Renaming {
    /// Examining the new path.
    New { old_path: Vec<u8>, new_path: Vec<u8> },
    /// The new path is a directory; examining the old one.
    Old { old_path: Vec<u8>, new_path: Vec<u8>, target: FileInfoData },
    Moving { old_path: Vec<u8>, new_path: Vec<u8> },
}

pub enum RenameStep {
    Call(Call, Renaming),
    Done(Option<Error>),
}

pub fn Rename(oldpath: &Vec<u8>, newpath: &Vec<u8>) -> (r: (Call, Renaming))
    ensures
        r.0 matches Call::Lstat { path } && path@ == gostr::c_path(newpath@),
        r.1 matches Renaming::New { old_path, new_path } && old_path@ == oldpath@ && new_path@
            == newpath@,
{
    (
        Call::Lstat { path: c_string(newpath) },
        Renaming::New {
            old_path: copy_bytes(oldpath.as_slice()),
            new_path: copy_bytes(newpath.as_slice()),
        },
    )
}

/// `r` is the request to move one path to the other.
pub open spec fn moves(r: RenameStep, from: Seq<u8>, to: Seq<u8>) -> bool {
    r matches RenameStep::Call(
        Call::Rename { old: o, new: n },
        Renaming::Moving { old_path, new_path },
    ) && o@ == gostr::c_path(from) && n@ == gostr::c_path(to) && old_path@ == from && new_path@ == to
}

/// `r` refuses the rename for that reason.
pub open spec fn refuses(r: RenameStep, from: Seq<u8>, to: Seq<u8>, err: CauseView) -> bool {
    r matches RenameStep::Done(Some(e)) && e@ == (ErrorView::Link {
        op: gostr::lit("rename"),
        old: from,
        new: to,
        err,
    })
}

fn move_step(old_path: Vec<u8>, new_path: Vec<u8>) -> (r: RenameStep)
    ensures
        moves(r, old_path@, new_path@),
{
    RenameStep::Call(
        Call::Rename { old: c_string(&old_path), new: c_string(&new_path) },
        Renaming::Moving { old_path, new_path },
    )
}

/// `r` follows the kernel's answer to a step of a rename.
pub open spec fn rename_next(s: Renaming, rc: i64, st: Stat_t, r: RenameStep) -> bool {
    match s {
        Renaming::New { old_path, new_path } => {
            let fi = stat_result(new_path@, rc, st);
            if rc >= 0 && fi.is_dir {
                r matches RenameStep::Call(
                    Call::Lstat { path },
                    Renaming::Old { old_path: o, new_path: n, target },
                ) && path@ == gostr::c_path(old_path@) && o@ == old_path@ && n@ == new_path@
                    && target@ == fi
            } else {
                moves(r, old_path@, new_path@)
            }
        },
        Renaming::Old { old_path, new_path, target } => if rc < 0 {
            refuses(r, old_path@, new_path@, errors::errno_of(rc))
        } else if new_path@ == old_path@ || !fileinfo::same_file(
            target@,
            stat_result(old_path@, rc, st),
        ) {
            refuses(r, old_path@, new_path@, CauseView::Errno(EEXIST))
        } else {
            moves(r, old_path@, new_path@)
        },
        Renaming::Moving { old_path, new_path } => r matches RenameStep::Done(e)
            && errors::err_view(e) == link_failure(gostr::lit("rename"), old_path@, new_path@, rc),
    }
}

impl Renaming {
    /// What follows an answer. An existing directory is not replaced, except
    /// that a file may be renamed to another name of itself.
    pub fn done(self, rc: i64, st: &Stat_t) -> (r: RenameStep)
        requires
            errors::valid_rc(rc),
        ensures
            rename_next(self, rc, *st, r),
    {
        match self {
            Renaming::New { old_path, new_path } => {
                let op = StatOp { op: text("lstat"), name: copy_bytes(new_path.as_slice()) };
                let (fi, _err) = op.done(rc, st);
                if rc >= 0 && fi.IsDir() {
                    RenameStep::Call(
                        Call::Lstat { path: c_string(&old_path) },
                        Renaming::Old { old_path, new_path, target: fi },
                    )
                } else {
                    move_step(old_path, new_path)
                }
            },
            Renaming::Old { old_path, new_path, target } => {
                let op = StatOp { op: text("lstat"), name: copy_bytes(old_path.as_slice()) };
                let (ofi, _err) = op.done(rc, st);
                if rc < 0 {
                    RenameStep::Done(
                        Some(
                            linkErr(
                                text("rename").as_slice(),
                                old_path.as_slice(),
                                new_path.as_slice(),
                                errno(rc),
                            ),
                        ),
                    )
                } else if same_bytes(new_path.as_slice(), old_path.as_slice()) || !SameFile(
                    &target,
                    &ofi,
                ) {
                    RenameStep::Done(
                        Some(
                            linkErr(
                                text("rename").as_slice(),
                                old_path.as_slice(),
                                new_path.as_slice(),
                                Cause::Errno(EEXIST),
                            ),
                        ),
                    )
                } else {
                    move_step(old_path, new_path)
                }
            },
            Renaming::Moving { old_path, new_path } => if rc < 0 {
                RenameStep::Done(
                    Some(
                        linkErr(
                            text("rename").as_slice(),
                            old_path.as_slice(),
                            new_path.as_slice(),
                            errno(rc),
                        ),
                    ),
                )
            } else {
                RenameStep::Done(None)
            },
        }
    }
}

// ---- links ----

/// Reading a link into a buffer of `size` bytes.
pub struct LinkReading {
    pub name: Vec<u8>,
    pub size: usize,
}

pub enum ReadlinkStep {
    Call(Call, LinkReading),
    Done(Vec<u8>, Option<Error>),
}

pub const MAX_LINK: usize = 1048576;

pub open spec fn reads_link(c: Call, s: LinkReading, name: Seq<u8>, size: int) -> bool {
    c matches Call::Readlink { path, size: n } && path@ == gostr::c_path(name) && n == size && s.name@
        == name && s.size == size
}

pub fn Readlink(name: &Vec<u8>) -> (r: (Call, LinkReading))
    ensures
        reads_link(r.0, r.1, name@, 128),
{
    (
        Call::Readlink { path: c_string(name), size: 128 },
        LinkReading { name: copy_bytes(name.as_slice()), size: 128 },
    )
}

/// `r` follows the kernel's answer to reading a link.
pub open spec fn readlink_next(s: LinkReading, rc: i64, buf: Seq<u8>, r: ReadlinkStep) -> bool {
    if rc < 0 {
        r matches ReadlinkStep::Done(v, e) && v@ == Seq::<u8>::empty() && errors::err_view(e)
            == path_failure(gostr::lit("readlink"), s.name@, rc)
    } else if rc < s.size {
        r matches ReadlinkStep::Done(v, e) && v@ == buf.subrange(0, rc as int) && e is None
    } else if 2 * s.size > MAX_LINK {
        r matches ReadlinkStep::Done(v, e) && v@ == Seq::<u8>::empty() && errors::err_view(e)
            == Some(ErrorView::Bare(CauseView::Message(gostr::lit("readlink: target too long"))))
    } else {
        r matches ReadlinkStep::Call(c, t) && reads_link(c, t, s.name@, 2 * s.size)
    }
}

impl LinkReading {
    /// `rc` is what the kernel returned and `buf` the buffer that it filled. A
    /// full buffer may have been too small: a larger one is tried, up to a
    /// limit.
    pub fn done(self, rc: i64, buf: &[u8]) -> (r: ReadlinkStep)
        requires
            errors::valid_rc(rc),
            0 < self.size <= MAX_LINK,
            rc <= buf@.len(),
        ensures
            readlink_next(self, rc, buf@, r),
    {
        let none: Vec<u8> = Vec::new();
        assert(none@ =~= Seq::empty());
        if rc < 0 {
            return ReadlinkStep::Done(
                none,
                Some(pathErr(text("readlink").as_slice(), self.name.as_slice(), errno(rc))),
            );
        }
        if (rc as u64) < self.size as u64 {
            return ReadlinkStep::Done(dwarf_util::copy_range(buf, 0, rc as usize), None);
        }
        if 2 * self.size > MAX_LINK {
            return ReadlinkStep::Done(none, Some(message("readlink: target too long")));
        }
        ReadlinkStep::Call(
            Call::Readlink { path: c_string(&self.name), size: 2 * self.size },
            LinkReading { name: self.name, size: 2 * self.size },
        )
    }
}

/// The path of the running program, from the answer to reading the kernel's
/// link to it: a program that was deleted keeps its path.
pub open spec fn executable_path(link: Seq<u8>) -> Seq<u8> {
    let suffix = gostr::lit(" (deleted)");
    let cut = link.len() - suffix.len();
    if cut >= 0 && link.subrange(cut, link.len() as int) == suffix {
        link.subrange(0, cut)
    } else {
        link
    }
}

pub fn Executable(link: &Vec<u8>) -> (r: Vec<u8>)
    ensures
        r@ == executable_path(link@),
{
    let suffix = text(" (deleted)");
    if link.len() >= suffix.len() {
        let cut: usize = link.len() - suffix.len();
        let tail = dwarf_util::copy_range(link.as_slice(), cut, link.len());
        if same_bytes(tail.as_slice(), suffix.as_slice()) {
            return dwarf_util::copy_range(link.as_slice(), 0, cut);
        }
    }
    copy_bytes(link.as_slice())
}

/// The link that names the running program.
pub fn executable_link() -> (r: Vec<u8>)
    ensures
        r@ == gostr::lit("/proc/self/exe"),
{
    text("/proc/self/exe")
}

// ---- the current directory ----

pub enum Getting {
    /// Examining the current directory, to compare it with `pwd`.
    Dot { pwd: Vec<u8> },
    Pwd { pwd: Vec<u8>, dot: FileInfoData },
    Asking { size: usize },
}

pub enum GetwdStep {
    Call(Call, Getting),
    Done(Vec<u8>, Option<Error>),
}

pub open spec fn asks(r: GetwdStep, size: int) -> bool {
    r matches GetwdStep::Call(Call::Getcwd { size: n }, Getting::Asking { size: m }) && n == size
        && m == size
}

/// Starts finding the current directory. `pwd` is what the environment claims
/// it to be; an absolute claim is believed once it has been checked.
pub fn Getwd(pwd: &Vec<u8>) -> (r: GetwdStep)
    ensures
        if pwd@.len() > 0 && pwd@[0] == PathSeparator {
            r matches GetwdStep::Call(Call::Stat { path }, Getting::Dot { pwd: p }) && path@
                == gostr::c_path(gostr::lit(".")) && p@ == pwd@
        } else {
            asks(r, 128)
        },
{
    if pwd.len() > 0 && pwd[0] == PathSeparator {
        GetwdStep::Call(
            Call::Stat { path: c_string(&text(".")) },
            Getting::Dot { pwd: copy_bytes(pwd.as_slice()) },
        )
    } else {
        GetwdStep::Call(Call::Getcwd { size: 128 }, Getting::Asking { size: 128 })
    }
}

pub const ERANGE: i64 = 34;

/// `r` follows the kernel's answer on the current directory.
pub open spec fn getwd_next(s: Getting, rc: i64, st: Stat_t, buf: Seq<u8>, r: GetwdStep) -> bool {
    match s {
        Getting::Dot { pwd } => if rc < 0 {
            r matches GetwdStep::Done(v, e) && v@ == Seq::<u8>::empty() && errors::err_view(e)
                == path_failure(gostr::lit("stat"), gostr::lit("."), rc)
        } else {
            r matches GetwdStep::Call(Call::Stat { path }, Getting::Pwd { pwd: p, dot })
                && path@ == gostr::c_path(pwd@) && p@ == pwd@ && dot@ == stat_result(
                gostr::lit("."),
                rc,
                st,
            )
        },
        Getting::Pwd { pwd, dot } => if rc >= 0 && fileinfo::same_file(
            dot@,
            stat_result(pwd@, rc, st),
        ) {
            r matches GetwdStep::Done(v, e) && v@ == pwd@ && e is None
        } else {
            asks(r, 128)
        },
        Getting::Asking { size } => if rc > 0 {
            r matches GetwdStep::Done(v, e) && v@ == buf.subrange(0, rc - 1) && e is None
        } else if rc != -ERANGE {
            r matches GetwdStep::Done(v, e) && v@ == Seq::<u8>::empty() && errors::err_view(e)
                == Some(ErrorView::Syscall { call: gostr::lit("getwd"), err: errors::errno_of(rc) })
        } else if 2 * size <= 4096 {
            asks(r, 2 * size)
        } else {
            r matches GetwdStep::Done(v, e) && v@ == Seq::<u8>::empty() && errors::err_view(e)
                == Some(
                ErrorView::Bare(CauseView::Message(gostr::lit("getwd: cwd path too long"))),
            )
        },
    }
}

impl Getting {
    /// What follows the kernel's answer: a code, a record, and a buffer that
    /// holds the path and its NUL.
    pub fn done(self, rc: i64, st: &Stat_t, buf: &[u8]) -> (r: GetwdStep)
        requires
            errors::valid_rc(rc),
            rc <= buf@.len(),
            self matches Getting::Asking { size } ==> size <= 4096,
        ensures
            getwd_next(self, rc, *st, buf@, r),
    {
        let none: Vec<u8> = Vec::new();
        assert(none@ =~= Seq::empty());
        match self {
            Getting::Dot { pwd } => {
                let op = StatOp { op: text("stat"), name: text(".") };
                let (dot, err) = op.done(rc, st);
                if err.is_some() {
                    return GetwdStep::Done(none, err);
                }
                GetwdStep::Call(
                    Call::Stat { path: c_string(&pwd) },
                    Getting::Pwd { pwd, dot },
                )
            },
            Getting::Pwd { pwd, dot } => {
                let op = StatOp { op: text("stat"), name: copy_bytes(pwd.as_slice()) };
                let (d, err) = op.done(rc, st);
                if err.is_none() && SameFile(&dot, &d) {
                    return GetwdStep::Done(pwd, None);
                }
                GetwdStep::Call(Call::Getcwd { size: 128 }, Getting::Asking { size: 128 })
            },
            Getting::Asking { size } => {
                if rc > 0 {
                    let len: usize = (rc - 1) as usize;
                    assert(rc <= buf.len());
                    return GetwdStep::Done(dwarf_util::copy_range(buf, 0, len), None);
                }
                if rc != -ERANGE {
                    let cause = if rc < 0 {
                        errno(rc)
                    } else {
                        Cause::Errno(0)
                    };
                    return GetwdStep::Done(none, Some(NewSyscallError("getwd", cause)));
                }
                if 2 * size <= 4096 {
                    GetwdStep::Call(
                        Call::Getcwd { size: 2 * size },
                        Getting::Asking { size: 2 * size },
                    )
                } else {
                    GetwdStep::Done(none, Some(message("getwd: cwd path too long")))
                }
            },
        }
    }
}

// ---- directories from the environment ----

/// The directory for temporary files, given the value of `TMPDIR` if it is
/// set.
pub fn TempDir(tmpdir: Option<Vec<u8>>) -> (r: Vec<u8>)
    ensures
        r@ == (match tmpdir {
            Some(v) if v@.len() > 0 => v@,
            _ => gostr::lit("/tmp"),
        }),
{
    match tmpdir {
        Some(v) => if v.len() > 0 {
            v
        } else {
            text("/tmp")
        },
        None => text("/tmp"),
    }
}

/// The home directory, given the value of `HOME` (empty when unset).
pub fn UserHomeDir(home: &Vec<u8>) -> (r: (Vec<u8>, Option<Error>))
    ensures
        r.0@ == home@,
        errors::err_view(r.1) == (if home@.len() > 0 {
            None
        } else {
            Some(ErrorView::Bare(CauseView::Message(gostr::lit("$HOME") + gostr::lit(" is not defined"))))
        }),
{
    if home.len() != 0 {
        return (copy_bytes(home.as_slice()), None);
    }
    let mut m = text("$HOME");
    append(&mut m, text(" is not defined").as_slice());
    (copy_bytes(home.as_slice()), Some(Error::Bare(Cause::Message(m))))
}

/// A per-user directory: the one that the environment names, which must be
/// absolute, or one below the home directory.
pub open spec fn xdg_dir(
    dir: Seq<u8>,
    home: Seq<u8>,
    below: Seq<u8>,
    undefined: Seq<u8>,
    relative: Seq<u8>,
) -> (Seq<u8>, Option<ErrorView>) {
    if dir.len() > 0 {
        if dir[0] == PathSeparator {
            (dir, None)
        } else {
            (Seq::empty(), Some(ErrorView::Bare(CauseView::Message(relative))))
        }
    } else if home.len() > 0 {
        (home + below, None)
    } else {
        (Seq::empty(), Some(ErrorView::Bare(CauseView::Message(undefined))))
    }
}

fn xdg(dir: &Vec<u8>, home: &Vec<u8>, below: &str, undefined: &str, relative: &str) -> (r: (
    Vec<u8>,
    Option<Error>,
))
    ensures
        (r.0@, errors::err_view(r.1)) == xdg_dir(dir@, home@, gostr::lit(below), gostr::lit(undefined), gostr::lit(relative)),
{
    let none: Vec<u8> = Vec::new();
    assert(none@ =~= Seq::empty());
    if dir.len() == 0 {
        if home.len() == 0 {
            return (none, Some(message(undefined)));
        }
        return (concat(home.as_slice(), text(below).as_slice()), None);
    }
    if dir[0] != PathSeparator {
        return (none, Some(message(relative)));
    }
    (copy_bytes(dir.as_slice()), None)
}

/// The cache directory, given `XDG_CACHE_HOME` and `HOME` (empty when unset).
pub fn UserCacheDir(dir: &Vec<u8>, home: &Vec<u8>) -> (r: (Vec<u8>, Option<Error>))
    ensures
        (r.0@, errors::err_view(r.1)) == xdg_dir(
            dir@,
            home@,
            gostr::lit("/.cache"),
            gostr::lit("neither $XDG_CACHE_HOME nor $HOME are defined"),
            gostr::lit("path in $XDG_CACHE_HOME is relative"),
        ),
{
    xdg(
        dir,
        home,
        "/.cache",
        "neither $XDG_CACHE_HOME nor $HOME are defined",
        "path in $XDG_CACHE_HOME is relative",
    )
}

/// The configuration directory, given `XDG_CONFIG_HOME` and `HOME` (empty when
/// unset).
pub fn UserConfigDir(dir: &Vec<u8>, home: &Vec<u8>) -> (r: (Vec<u8>, Option<Error>))
    ensures
        (r.0@, errors::err_view(r.1)) == xdg_dir(
            dir@,
            home@,
            gostr::lit("/.config"),
            gostr::lit("neither $XDG_CONFIG_HOME nor $HOME are defined"),
            gostr::lit("path in $XDG_CONFIG_HOME is relative"),
        ),
{
    xdg(
        dir,
        home,
        "/.config",
        "neither $XDG_CONFIG_HOME nor $HOME are defined",
        "path in $XDG_CONFIG_HOME is relative",
    )
}

/// A per-user directory that is found without an error is not empty.
pub proof fn law_user_dir_is_not_empty(
    dir: Seq<u8>,
    home: Seq<u8>,
    below: Seq<u8>,
    undefined: Seq<u8>,
    relative: Seq<u8>,
)
    ensures
        xdg_dir(dir, home, below, undefined, relative).1 is None ==> xdg_dir(
            dir,
            home,
            below,
            undefined,
            relative,
        ).0.len() > 0,
{
}

// ---- the process ----

pub fn Getpagesize() -> (r: i64)
    ensures
        r == 4096,
{
    4096
}

/// The user number that the kernel returned.
pub fn Getuid(id: u32) -> (r: i64)
    ensures
        r == id,
{
    id as i64
}

/// The effective user number that the kernel returned.
pub fn Geteuid(id: u32) -> (r: i64)
    ensures
        r == id,
{
    id as i64
}

/// The group number that the kernel returned.
pub fn Getgid(id: u32) -> (r: i64)
    ensures
        r == id,
{
    id as i64
}

/// The effective group number that the kernel returned.
pub fn Getegid(id: u32) -> (r: i64)
    ensures
        r == id,
{
    id as i64
}

/// The process number that the kernel returned.
pub fn Getpid(id: i32) -> (r: i64)
    ensures
        r == id,
{
    id as i64
}

/// The number of the parent process that the kernel returned.
pub fn Getppid(id: i32) -> (r: i64)
    ensures
        r == id,
{
    id as i64
}

pub enum Groups {
    Counting,
    Reading { count: i32 },
}

pub enum GroupsStep {
    Call(Call, Groups),
    Done(Vec<i64>, Option<Error>),
}

pub open spec fn groups_failed(r: GroupsStep, rc: i64) -> bool {
    r matches GroupsStep::Done(v, e) && v@ == Seq::<i64>::empty() && errors::err_view(e) == Some(
        ErrorView::Syscall { call: gostr::lit("getgroups"), err: errors::errno_of(rc) },
    )
}

/// Asks how many supplementary groups there are.
pub fn Getgroups() -> (r: (Call, Groups))
    ensures
        r.0 == (Call::Getgroups { size: 0 }),
        r.1 == Groups::Counting,
{
    (Call::Getgroups { size: 0 }, Groups::Counting)
}

/// `r` follows the kernel's answer on the groups.
pub open spec fn groups_next(s: Groups, rc: i32, list: Seq<u32>, r: GroupsStep) -> bool {
    if rc < 0 {
        groups_failed(r, rc as i64)
    } else {
        match s {
            Groups::Counting => if rc == 0 {
                r matches GroupsStep::Done(v, e) && v@ == Seq::<i64>::empty() && e is None
            } else {
                r == GroupsStep::Call(
                    Call::Getgroups { size: rc },
                    Groups::Reading { count: rc },
                )
            },
            Groups::Reading { count: _ } => r matches GroupsStep::Done(v, e) && e is None
                && v@ == Seq::new(rc as nat, |i: int| list[i] as i64),
        }
    }
}

impl Groups {
    /// `rc` is the count that the kernel returned, `list` what it wrote.
    pub fn done(self, rc: i32, list: &[u32]) -> (r: GroupsStep)
        requires
            errors::valid_rc(rc as i64),
            rc <= list@.len() || self is Counting,
        ensures
            groups_next(self, rc, list@, r),
    {
        let mut gids: Vec<i64> = Vec::new();
        assert(gids@ =~= Seq::empty());
        if rc < 0 {
            return GroupsStep::Done(gids, Some(NewSyscallError("getgroups", errno(rc as i64))));
        }
        match self {
            Groups::Counting => {
                if rc == 0 {
                    return GroupsStep::Done(gids, None);
                }
                GroupsStep::Call(Call::Getgroups { size: rc }, Groups::Reading { count: rc })
            },
            Groups::Reading { count: _ } => {
                let n: usize = rc as usize;
                let mut i: usize = 0;
                while i < n
                    invariant
                        i <= n <= list.len(),
                        gids@ == Seq::new(i as nat, |k: int| list@[k] as i64),
                    decreases n - i,
                {
                    gids.push(list[i] as i64);
                    i = i + 1;
                    assert(gids@ =~= Seq::new(i as nat, |k: int| list@[k] as i64));
                }
                GroupsStep::Done(gids, None)
            },
        }
    }
}

/// Asks for a pipe whose ends are closed on exec.
pub fn pipe_call(t: Target) -> (r: Call)
    ensures
        r == (Call::Pipe2 { flags: syscall::numbers_of(t).o_cloexec }),
{
    Call::Pipe2 { flags: t.numbers().o_cloexec }
}

/// The two ends of a pipe, from the kernel's answer.
pub fn Pipe(rc: i32, read_fd: i32, write_fd: i32) -> (r: (File, File, Option<Error>))
    requires
        errors::valid_rc(rc as i64),
    ensures
        if rc < 0 {
            &&& r.0.is((-1) as i32, Seq::empty())
            &&& r.1.is((-1) as i32, Seq::empty())
            &&& errors::err_view(r.2) == Some(
                ErrorView::Syscall { call: gostr::lit("pipe2"), err: errors::errno_of(rc as i64) },
            )
        } else {
            &&& r.0.is(read_fd, gostr::lit("|0"))
            &&& r.1.is(write_fd, gostr::lit("|1"))
            &&& r.2 is None
        },
{
    if rc < 0 {
        let a: Vec<u8> = Vec::new();
        let b: Vec<u8> = Vec::new();
        assert(a@ =~= Seq::empty());
        assert(b@ =~= Seq::empty());
        return (
            File::NewFile(-1, a),
            File::NewFile(-1, b),
            Some(NewSyscallError("pipe2", errno(rc as i64))),
        );
    }
    (
        File::NewFile(read_fd as i64, text("|0")),
        File::NewFile(write_fd as i64, text("|1")),
        None,
    )
}

/// The name field cut at its NUL, or the kernel's error.
pub open spec fn host_name(rc: i32, nodename: Seq<u8>) -> (Seq<u8>, Option<ErrorView>) {
    if rc < 0 {
        (
            Seq::empty(),
            Some(
                ErrorView::Syscall { call: gostr::lit("uname"), err: errors::errno_of(rc as i64) },
            ),
        )
    } else {
        (gostr::until_nul(nodename), None)
    }
}

/// The host name, from the kernel's answer and its name field.
pub fn Hostname(rc: i32, nodename: &[u8]) -> (r: (Vec<u8>, Option<Error>))
    requires
        errors::valid_rc(rc as i64),
    ensures
        (r.0@, errors::err_view(r.1)) == host_name(rc, nodename@),
{
    if rc < 0 {
        let none: Vec<u8> = Vec::new();
        assert(none@ =~= Seq::empty());
        return (none, Some(NewSyscallError("uname", errno(rc as i64))));
    }
    assert(nodename@.subrange(0, nodename@.len() as int) =~= nodename@);
    (cut_at_nul(nodename, 0, nodename.len()), None)
}

pub fn Stdin() -> (r: File)
    ensures
        r.is(0, gostr::lit("/dev/stdin")),
{
    File::NewFile(0, text("/dev/stdin"))
}

pub fn Stdout() -> (r: File)
    ensures
        r.is(1, gostr::lit("/dev/stdout")),
{
    File::NewFile(1, text("/dev/stdout"))
}

pub fn Stderr() -> (r: File)
    ensures
        r.is(2, gostr::lit("/dev/stderr")),
{
    File::NewFile(2, text("/dev/stderr"))
}

/// The request that ends the process; the code is cut to 32 bits.
pub fn Exit(code: i64) -> (r: Call)
    ensures
        r == (Call::Exit { code: code as i32 }),
{
    Call::Exit { code: code as i32 }
}

/// The arguments of the process: decoded once from the C vector (whose
/// entries end at a missing one) and cached.
pub struct ArgsCache {
    pub cached: Option<Vec<Vec<u8>>>,
}

/// The entries before the first missing one, each cut at its NUL.
pub open spec fn argv_text(raw: Seq<Option<Vec<u8>>>) -> Seq<Seq<u8>>
    decreases raw.len(),
{
    if raw.len() == 0 || raw[0] is None {
        Seq::empty()
    } else {
        seq![gostr::until_nul(raw[0]->0@)] + argv_text(raw.subrange(1, raw.len() as int))
    }
}

pub fn decode_argv(raw: &[Option<Vec<u8>>]) -> (r: Vec<Vec<u8>>)
    ensures
        line::byte_views(r@) == argv_text(raw@),
{
    let mut out: Vec<Vec<u8>> = Vec::new();
    let mut i: usize = 0;
    let ghost mut done: Seq<Seq<u8>> = Seq::empty();
    proof {
        assert(raw@.subrange(0, raw@.len() as int) =~= raw@);
        assert(line::byte_views(out@) =~= done);
        assert(done + argv_text(raw@) =~= argv_text(raw@));
    }
    while i < raw.len()
        invariant
            i <= raw.len(),
            line::byte_views(out@) == done,
            argv_text(raw@) == done + argv_text(raw@.subrange(i as int, raw@.len() as int)),
        decreases raw.len() - i,
    {
        let ghost rest = raw@.subrange(i as int, raw@.len() as int);
        assert(rest[0] == raw@[i as int]);
        match &raw[i] {
            None => {
                assert(done + Seq::<Seq<u8>>::empty() =~= done);
                return out;
            },
            Some(s) => {
                assert(s@.subrange(0, s@.len() as int) =~= s@);
                let arg = cut_at_nul(s.as_slice(), 0, s.len());
                let ghost v = arg@;
                let ghost prev = out@;
                out.push(arg);
                proof {
                    let tail = raw@.subrange(i + 1, raw@.len() as int);
                    assert(rest.subrange(1, rest.len() as int) =~= tail);
                    assert(line::byte_views(out@) =~= line::byte_views(prev).push(
                        v,
                    ));
                    assert(done + (seq![v] + argv_text(tail)) =~= done.push(v) + argv_text(tail));
                    done = done.push(v);
                }
            },
        }
        i = i + 1;
    }
    assert(done + Seq::<Seq<u8>>::empty() =~= done);
    out
}

impl ArgsCache {
    pub open spec fn text(&self) -> Option<Seq<Seq<u8>>> {
        match self.cached {
            Some(v) => Some(line::byte_views(v@)),
            None => None,
        }
    }
}

/// The arguments: those decoded before, else those of `raw`.
pub fn Args(cache: &mut ArgsCache, raw: &[Option<Vec<u8>>])
    ensures
        final(cache).text() == Some(
            match old(cache).text() {
                Some(t) => t,
                None => argv_text(raw@),
            },
        ),
{
    if cache.cached.is_none() {
        cache.cached = Some(decode_argv(raw));
    }
}

// ---- laws ----

/// A removal first unlinks the path and ends if that works. Otherwise it
/// removes the path as a directory, and where that is refused too it reports
/// the unlink's error for what is no directory (error 20) and the directory
/// removal's for anything else.
pub proof fn law_removal_tries_both(
    name: Vec<u8>,
    e1: i64,
    r1: RemoveStep,
    c: Call,
    s: Removing,
    e2: i64,
    r2: RemoveStep,
)
    requires
        remove_next(Removing::Unlinking { name }, e1, r1),
        r1 == RemoveStep::Call(c, s) ==> remove_next(s, e2, r2),
    ensures
        e1 == 0 ==> r1 == RemoveStep::Done(None),
        e1 != 0 ==> r1 is Call && (r1 == RemoveStep::Call(c, s) ==> {
            &&& c matches Call::Rmdir { path } && path@ == gostr::c_path(name@)
            &&& r2 matches RemoveStep::Done(e)
            &&& e2 == 0 ==> r2 == RemoveStep::Done(None)
            &&& e2 == -20 ==> (r2->Done_0 matches Some(e) && e@ == (ErrorView::Path {
                op: gostr::lit("remove"),
                path: name@,
                err: CauseView::Errno((-e1) as i32),
            }))
            &&& e2 != 0 && e2 != -20 ==> (r2->Done_0 matches Some(e) && e@ == (ErrorView::Path {
                op: gostr::lit("remove"),
                path: name@,
                err: CauseView::Errno((-e2) as i32),
            }))
        }),
{
}

/// Where the new path is missing or is no directory, a rename asks the kernel
/// to move the old path there, and its error is the kernel's.
pub proof fn law_rename_moves(
    old_path: Vec<u8>,
    new_path: Vec<u8>,
    rc: i64,
    st: Stat_t,
    r: RenameStep,
    c: Call,
    s: Renaming,
    rc2: i64,
    st2: Stat_t,
    r2: RenameStep,
)
    requires
        rename_next(Renaming::New { old_path, new_path }, rc, st, r),
        r == RenameStep::Call(c, s) ==> rename_next(s, rc2, st2, r2),
        rc < 0 || st.st_mode & 0o170000 != 0o040000,
    ensures
        r is Call,
        r == RenameStep::Call(c, s) ==> {
            &&& c matches Call::Rename { old, new } && old@ == gostr::c_path(old_path@) && new@
                == gostr::c_path(new_path@)
            &&& rc2 >= 0 ==> r2 == RenameStep::Done(None)
            &&& rc2 < 0 ==> (r2 matches RenameStep::Done(Some(e)) && e@ == (ErrorView::Link {
                op: gostr::lit("rename"),
                old: old_path@,
                new: new_path@,
                err: CauseView::Errno((-rc2) as i32),
            }))
        },
{
    fileinfo::law_info_is_the_kernels(fileinfo::base_of(new_path@), st);
}

/// Where the new path is a directory, the old path is examined. What cannot be
/// examined is not moved, nor is what is another file (error 17); a file that
/// has both names is moved, unless the names are the same.
pub proof fn law_directory_is_not_replaced(
    old_path: Vec<u8>,
    new_path: Vec<u8>,
    rc: i64,
    st: Stat_t,
    r: RenameStep,
    c: Call,
    s: Renaming,
    rc2: i64,
    st2: Stat_t,
    r2: RenameStep,
)
    requires
        rename_next(Renaming::New { old_path, new_path }, rc, st, r),
        r == RenameStep::Call(c, s) ==> rename_next(s, rc2, st2, r2),
        rc >= 0,
        st.st_mode & 0o170000 == 0o040000,
    ensures
        r is Call,
        r == RenameStep::Call(c, s) ==> {
            let one = st.st_dev == st2.st_dev && st.st_ino == st2.st_ino;
            &&& c matches Call::Lstat { path } && path@ == gostr::c_path(old_path@)
            &&& rc2 < 0 ==> (r2 matches RenameStep::Done(Some(e)) && e@ == (ErrorView::Link {
                op: gostr::lit("rename"),
                old: old_path@,
                new: new_path@,
                err: CauseView::Errno((-rc2) as i32),
            }))
            &&& rc2 >= 0 && (!one || old_path@ == new_path@) ==> (r2 matches RenameStep::Done(Some(e))
                && e@ == (ErrorView::Link {
                op: gostr::lit("rename"),
                old: old_path@,
                new: new_path@,
                err: CauseView::Errno(17),
            }))
            &&& rc2 >= 0 && one && old_path@ != new_path@ ==> (r2 matches RenameStep::Call(
                Call::Rename { old, new },
                Renaming::Moving { old_path: o, new_path: n },
            ) && old@ == gostr::c_path(old_path@) && new@ == gostr::c_path(new_path@) && o@
                == old_path@ && n@ == new_path@)
        },
{
    fileinfo::law_info_is_the_kernels(fileinfo::base_of(new_path@), st);
    fileinfo::law_info_is_the_kernels(fileinfo::base_of(old_path@), st2);
}

/// A kernel that writes as much of a link's target as the buffer holds: the
/// target is read whole where it is shorter than the buffer, else a buffer of
/// twice the size is tried, while that is at most a megabyte.
pub proof fn law_link_is_read_whole(
    s: LinkReading,
    target: Seq<u8>,
    rc: i64,
    buf: Seq<u8>,
    r: ReadlinkStep,
)
    requires
        readlink_next(s, rc, buf, r),
        rc == (if target.len() < s.size { target.len() } else { s.size as nat }),
        rc <= buf.len(),
        buf.subrange(0, rc as int) == target.subrange(0, rc as int),
    ensures
        target.len() < s.size ==> (r matches ReadlinkStep::Done(v, e) && v@ == target && e is None),
        target.len() >= s.size && s.size <= 524288 ==> (r matches ReadlinkStep::Call(
            Call::Readlink { path, size },
            t,
        ) && path@ == gostr::c_path(s.name@) && size == 2 * s.size && t.name@ == s.name@ && t.size
            == size),
        target.len() >= s.size && s.size > 524288 ==> (r matches ReadlinkStep::Done(v, e) && v@.len()
            == 0 && e is Some),
{
    if target.len() < s.size {
        assert(target.subrange(0, rc as int) =~= target);
    }
}

/// A refused reading of a link reports the kernel's error and no target.
pub proof fn law_link_refusal_is_reported(s: LinkReading, rc: i64, buf: Seq<u8>, r: ReadlinkStep)
    requires
        readlink_next(s, rc, buf, r),
        rc < 0,
    ensures
        r matches ReadlinkStep::Done(v, e) && v@.len() == 0 && errors::err_view(e) == Some(
            ErrorView::Path {
                op: gostr::lit("readlink"),
                path: s.name@,
                err: CauseView::Errno((-rc) as i32),
            },
        ),
{
}

/// The mark of a deleted program is taken off its path; any other path stays
/// as it is.
pub proof fn law_deleted_program_keeps_its_path(path: Seq<u8>)
    ensures
        executable_path(path + gostr::lit(" (deleted)")) == path,
        !(exists|p: Seq<u8>| path == #[trigger] (p + gostr::lit(" (deleted)")))
            ==> executable_path(path) == path,
{
    let mark = gostr::lit(" (deleted)");
    let link = path + mark;
    assert(link.subrange(path.len() as int, link.len() as int) =~= mark);
    assert(link.subrange(0, path.len() as int) =~= path);
    let cut = path.len() - mark.len();
    if cut >= 0 && path.subrange(cut, path.len() as int) == mark {
        let p = path.subrange(0, cut);
        assert(path =~= p + mark);
    }
}

/// A claimed directory is believed exactly if it is the file that the current
/// directory is, by device and number.
pub proof fn law_claimed_directory_is_checked(
    pwd: Vec<u8>,
    rc: i64,
    st: Stat_t,
    buf: Seq<u8>,
    r: GetwdStep,
    c: Call,
    s: Getting,
    rc2: i64,
    st2: Stat_t,
    r2: GetwdStep,
)
    requires
        getwd_next(Getting::Dot { pwd }, rc, st, buf, r),
        r == GetwdStep::Call(c, s) ==> getwd_next(s, rc2, st2, buf, r2),
    ensures
        rc < 0 ==> (r matches GetwdStep::Done(v, e) && v@.len() == 0 && errors::err_view(e) == Some(
            ErrorView::Path {
                op: gostr::lit("stat"),
                path: gostr::lit("."),
                err: CauseView::Errno((-rc) as i32),
            },
        )),
        rc >= 0 ==> r is Call,
        rc >= 0 && r == GetwdStep::Call(c, s) ==> {
            let believed = rc2 >= 0 && st.st_dev == st2.st_dev && st.st_ino == st2.st_ino;
            &&& c matches Call::Stat { path } && path@ == gostr::c_path(pwd@)
            &&& believed ==> (r2 matches GetwdStep::Done(v, e) && v@ == pwd@ && e is None)
            &&& !believed ==> (r2 matches GetwdStep::Call(
                Call::Getcwd { size },
                Getting::Asking { size: m },
            ) && size == 128 && m == 128)
        },
{
    fileinfo::law_info_is_the_kernels(fileinfo::base_of(gostr::lit(".")), st);
    fileinfo::law_info_is_the_kernels(fileinfo::base_of(pwd@), st2);
}

/// The kernel's answer on the current directory is its path and a NUL: the
/// path is returned. Where the buffer was too small (error 34) one of twice
/// the size is tried, up to a page.
pub proof fn law_kernel_tells_the_directory(
    size: usize,
    path: Seq<u8>,
    rest: Seq<u8>,
    rc: i64,
    st: Stat_t,
    r: GetwdStep,
)
    requires
        getwd_next(Getting::Asking { size }, rc, st, path.push(0) + rest, r),
    ensures
        rc == path.len() + 1 ==> (r matches GetwdStep::Done(v, e) && v@ == path && e is None),
        rc == -34 && size <= 2048 ==> (r matches GetwdStep::Call(
            Call::Getcwd { size: n },
            Getting::Asking { size: m },
        ) && n == size + size && m == n),
        rc == -34 && size > 2048 ==> (r matches GetwdStep::Done(v, e) && v@.len() == 0 && e is Some),
        rc < 0 && rc != -34 ==> (r matches GetwdStep::Done(v, e) && v@.len() == 0 && errors::err_view(e)
            == Some(
            ErrorView::Syscall { call: gostr::lit("getwd"), err: CauseView::Errno((-rc) as i32) },
        )),
{
    if rc == path.len() + 1 {
        let buf = path.push(0) + rest;
        assert(buf.subrange(0, rc - 1) =~= path);
    }
}

/// A per-user directory: an absolute one from the environment as it is, else
/// the one below the home directory; a relative one is an error, and so is the
/// want of both.
pub proof fn law_user_dir_is_the_named_one(
    rest: Seq<u8>,
    first: u8,
    home: Seq<u8>,
    below: Seq<u8>,
    undefined: Seq<u8>,
    relative: Seq<u8>,
)
    ensures
        xdg_dir(seq![47u8] + rest, home, below, undefined, relative) == (
            seq![47u8] + rest,
            None::<ErrorView>,
        ),
        first != 47 ==> xdg_dir(seq![first] + rest, home, below, undefined, relative) == (
            Seq::<u8>::empty(),
            Some(ErrorView::Bare(CauseView::Message(relative))),
        ),
        home.len() > 0 ==> xdg_dir(Seq::empty(), home, below, undefined, relative) == (
            home + below,
            None::<ErrorView>,
        ),
        xdg_dir(Seq::empty(), Seq::empty(), below, undefined, relative) == (
            Seq::<u8>::empty(),
            Some(ErrorView::Bare(CauseView::Message(undefined))),
        ),
{
    assert((seq![first] + rest)[0] == first);
    assert((seq![47u8] + rest)[0] == 47);
}

/// The groups are counted first, and then read, all that the kernel wrote and
/// in its order.
pub proof fn law_groups_are_those_of_the_kernel(
    n: i32,
    r: GroupsStep,
    c: Call,
    s: Groups,
    m: i32,
    list: Seq<u32>,
    r2: GroupsStep,
)
    requires
        groups_next(Groups::Counting, n, list, r),
        r == GroupsStep::Call(c, s) ==> groups_next(s, m, list, r2),
        0 <= m <= list.len(),
    ensures
        n == 0 ==> (r matches GroupsStep::Done(v, e) && v@.len() == 0 && e is None),
        n < 0 ==> (r matches GroupsStep::Done(v, e) && v@.len() == 0 && errors::err_view(e) == Some(
            ErrorView::Syscall { call: gostr::lit("getgroups"), err: CauseView::Errno((-n) as i32) },
        )),
        n > 0 ==> r is Call,
        n > 0 && r == GroupsStep::Call(c, s) ==> {
            &&& c == Call::Getgroups { size: n }
            &&& r2 matches GroupsStep::Done(v, e) && e is None && v@.len() == m && forall|i: int|
                0 <= i < m ==> v@[i] == list[i]
        },
{
}

/// The arguments are the texts that stand in the C vector before its end, in
/// their order and each up to its NUL, whatever follows.
pub proof fn law_arguments_are_those_of_the_vector(
    raw: Seq<Option<Vec<u8>>>,
    args: Seq<Seq<u8>>,
    after: Seq<u8>,
)
    requires
        args.len() < raw.len(),
        raw[args.len() as int] is None,
        forall|i: int, j: int| 0 <= i < args.len() && 0 <= j < args[i].len() ==> args[i][j] != 0,
        forall|i: int|
            0 <= i < args.len() ==> (#[trigger] raw[i]) is Some && raw[i]->0@ == args[i].push(0) + after,
    ensures
        argv_text(raw) == args,
    decreases args.len(),
{
    if args.len() > 0 {
        let rest = args.subrange(1, args.len() as int);
        let tail = raw.subrange(1, raw.len() as int);
        assert forall|i: int, j: int| 0 <= i < rest.len() && 0 <= j < rest[i].len() implies rest[i][j]
            != 0 by {
            assert(rest[i] == args[i + 1]);
        }
        assert forall|i: int| 0 <= i < rest.len() implies (#[trigger] tail[i]) is Some && tail[i]->0@
            == rest[i].push(0) + after by {
            assert(tail[i] == raw[i + 1]);
        }
        law_arguments_are_those_of_the_vector(tail, rest, after);
        assert(raw[0]->0@ == args[0].push(0) + after);
        assert(args[0].push(0) + after =~= args[0] + seq![0u8] + after);
        gostr::law_cut_at_the_first_nul(args[0], after);
        assert(args =~= seq![args[0]] + rest);
    } else {
        assert(args =~= Seq::empty());
    }
}

/// A failed operation names itself, its path or paths, and the kernel's error;
/// one that succeeded has no error.
pub proof fn law_failure_names_the_paths(op: Seq<u8>, path: Seq<u8>, other: Seq<u8>, rc: i64)
    ensures
        rc >= 0 ==> path_failure(op, path, rc) is None && link_failure(op, path, other, rc) is None,
        rc < 0 ==> path_failure(op, path, rc) == Some(
            ErrorView::Path { op, path, err: CauseView::Errno((-rc) as i32) },
        ),
        rc < 0 ==> link_failure(op, path, other, rc) == Some(
            ErrorView::Link { op, old: path, new: other, err: CauseView::Errno((-rc) as i32) },
        ),
{
}

/// Making a file asks for it to be made and emptied, with the access given and
/// nothing else.
pub proof fn law_making_creates_and_empties(t: Target, access: i64)
    requires
        0 <= access <= 2,
    ensures
        t == Target::DarwinArm64 ==> making(t, access) == access + 0x200 + 0x400,
        t != Target::DarwinArm64 ==> making(t, access) == access + 0o100 + 0o1000,
{
    assert(access | 0x200 | 0x400 == access + 0x200 + 0x400) by (bit_vector)
        requires
            0 <= access <= 2,
    ;
    assert(access | 0o100 | 0o1000 == access + 0o100 + 0o1000) by (bit_vector)
        requires
            0 <= access <= 2,
    ;
}

/// A file that was opened has the descriptor and the name; a refusal is the
/// kernel's error on that name.
pub proof fn law_open_gives_the_file(name: Seq<u8>, fd: i32, r: Result<File, Error>)
    requires
        opened(name, fd, r),
    ensures
        fd >= 0 ==> (r matches Ok(f) && f.fd == fd && f.name@ == name),
        fd < 0 ==> (r matches Err(e) && e@ == (ErrorView::Path {
            op: gostr::lit("open"),
            path: name,
            err: CauseView::Errno((-fd) as i32),
        })),
{
}

/// A file is opened under its path, closed on exec, with the flags and the
/// permissions given.
pub proof fn law_open_asks_for_the_file(c: Call, t: Target, name: Seq<u8>, flag: i64, perm: FileMode)
    requires
        opens(c, t, name, flag, perm),
        0 <= flag <= 0x7fff,
        perm.0 <= 0o777,
    ensures
        c matches Call::Open { path, flags, mode } && path@ == gostr::c_path(name) && mode == perm.0
            && (t == Target::DarwinArm64 ==> flags == flag + 0x100_0000) && (t != Target::DarwinArm64
            ==> flags == flag + 0x8_0000),
{
    let f = flag as i32;
    let p = perm.0;
    assert((f | 0x100_0000i32 == f + 0x100_0000i32) && (f | 0x8_0000i32 == f + 0x8_0000i32))
        by (bit_vector)
        requires
            0 <= f <= 0x7fff,
    ;
    assert(p & 0o777 == p && p & 0x0080_0000 == 0 && p & 0x0040_0000 == 0 && p & 0x0010_0000 == 0 && p
        | 0u32 == p) by (bit_vector)
        requires
            p <= 0o777,
    ;
}

/// The host's name is what stands before the NUL of the name field.
pub proof fn law_host_name_is_read(name: Seq<u8>, rest: Seq<u8>, rc: i32)
    requires
        forall|i: int| 0 <= i < name.len() ==> #[trigger] name[i] != 0,
    ensures
        rc >= 0 ==> host_name(rc, name + seq![0u8] + rest) == (name, None::<ErrorView>),
        rc < 0 ==> host_name(rc, rest).0.len() == 0 && host_name(rc, rest).1 == Some(
            ErrorView::Syscall { call: gostr::lit("uname"), err: CauseView::Errno((-rc) as i32) },
        ),
{
    gostr::law_cut_at_the_first_nul(name, rest);
}

} // verus!
