//! Open files.

use vstd::prelude::*;

use crate::errors::{errno, pathErr, Cause, Error};
use crate::fileinfo::{base_name, empty_info, fileinfo_from_stat, syscallMode, FileInfoData, FileMode};
use crate::gostr::{copy_bytes, text};
use crate::syscall::{Call, Stat_t};
use crate::{errors, fileinfo, gostr};

verus! {

use crate::errors::{CauseView, ErrorView};

/// A block of directory records that is being handed out.
#[derive(Debug)]
pub struct DirInfo {
    pub buf: Vec<u8>,
    /// How much of `buf` the kernel filled.
    pub nbuf: usize,
    /// Where the next record starts.
    pub bufp: usize,
}

/// An open file; a negative descriptor marks a closed one.
#[derive(Debug)]
pub struct File {
    pub fd: i32,
    pub name: Vec<u8>,
    pub dirinfo: Option<DirInfo>,
}

impl Default for File {
    fn default() -> (r: Self)
        ensures
            r.is((-1) as i32, gostr::lit("")),
    {
        File { fd: -1, name: text(""), dirinfo: None }
    }
}

/// What an operation on a file reports: a closed file as closed, else the
/// error number.
pub open spec fn file_error(op: Seq<u8>, name: Seq<u8>, fd: i32, rc: i64) -> ErrorView {
    ErrorView::Path {
        op,
        path: name,
        err: if fd < 0 {
            CauseView::Closed
        } else {
            errors::errno_of(rc)
        },
    }
}

pub open spec fn closed_error(op: Seq<u8>, name: Seq<u8>) -> ErrorView {
    ErrorView::Path { op, path: name, err: CauseView::Closed }
}

/// An operation on an open file, waiting for the kernel's answer.
pub struct FileOp {
    pub op: Vec<u8>,
    pub name: Vec<u8>,
    pub fd: i32,
}

/// A count or position, or zero and the error of a negative answer.
pub open spec fn counted_answer(o: FileOp, rc: i64) -> (int, Option<ErrorView>) {
    if rc < 0 {
        (0, Some(file_error(o.op@, o.name@, o.fd, rc)))
    } else {
        (rc as int, None)
    }
}

/// A count, or zero and the end of the file or the error of a negative answer.
pub open spec fn read_answer(o: FileOp, rc: i64) -> (int, Option<ErrorView>) {
    if rc == 0 {
        (0, Some(ErrorView::Eof))
    } else {
        counted_answer(o, rc)
    }
}

impl FileOp {
    pub open spec fn is(&self, op: Seq<u8>, name: Seq<u8>, fd: i32) -> bool {
        self.op@ == op && self.name@ == name && self.fd == fd
    }

    fn failure(&self, rc: i64) -> (r: Error)
        requires
            errors::valid_rc(rc),
            rc < 0,
        ensures
            r@ == file_error(self.op@, self.name@, self.fd, rc),
    {
        let cause = if self.fd < 0 {
            Cause::Closed
        } else {
            errno(rc)
        };
        pathErr(self.op.as_slice(), self.name.as_slice(), cause)
    }

    /// Nothing, or the error of a negative answer.
    pub fn done(self, rc: i64) -> (r: Option<Error>)
        requires
            errors::valid_rc(rc),
        ensures
            errors::err_view(r) == (if rc < 0 {
                Some(file_error(self.op@, self.name@, self.fd, rc))
            } else {
                None
            }),
    {
        if rc < 0 {
            Some(self.failure(rc))
        } else {
            None
        }
    }

    /// A count or position, or zero and the error of a negative answer.
    pub fn counted(self, rc: i64) -> (r: (i64, Option<Error>))
        requires
            errors::valid_rc(rc),
        ensures
            (r.0 as int, errors::err_view(r.1)) == counted_answer(self, rc),
    {
        if rc < 0 {
            (0, Some(self.failure(rc)))
        } else {
            (rc, None)
        }
    }

    /// As `counted`, except that nothing read is the end of the file.
    pub fn read(self, rc: i64) -> (r: (i64, Option<Error>))
        requires
            errors::valid_rc(rc),
        ensures
            (r.0 as int, errors::err_view(r.1)) == read_answer(self, rc),
    {
        if rc < 0 {
            (0, Some(self.failure(rc)))
        } else if rc == 0 {
            (0, Some(Error::Eof))
        } else {
            (rc, None)
        }
    }

    /// What the kernel said of an open file.
    pub fn stat(self, rc: i64, st: &Stat_t) -> (r: (FileInfoData, Option<Error>))
        requires
            errors::valid_rc(rc),
        ensures
            if rc < 0 {
                r.0@ == fileinfo::no_info(self.name@) && errors::err_view(r.1) == Some(
                    file_error(self.op@, self.name@, self.fd, rc),
                )
            } else {
                r.0@ == fileinfo::info_of(fileinfo::base_of(self.name@), *st) && r.1 is None
            },
    {
        if rc < 0 {
            (empty_info(self.name.as_slice()), Some(self.failure(rc)))
        } else {
            (fileinfo_from_stat(base_name(&self.name), st), None)
        }
    }
}

/// Either the call `r` holds, on the open file, or the error of a closed one.
pub open spec fn on_open_file(
    r: Result<(Call, FileOp), Error>,
    f: File,
    op: Seq<u8>,
    wanted: bool,
) -> bool {
    match r {
        Ok((c, o)) => f.fd >= 0 && o.is(op, f.name@, f.fd) && wanted,
        Err(e) => f.fd < 0 && e@ == closed_error(op, f.name@),
    }
}

/// `g` and `r` follow from closing the file `f`.
pub open spec fn closes(f: File, g: File, r: Result<(Call, FileOp), Error>) -> bool {
    &&& on_open_file(r, f, gostr::lit("close"), r->Ok_0.0 == (Call::Close { fd: f.fd }))
    &&& g.fd == (if f.fd < 0 {
        f.fd
    } else {
        (-1) as i32
    })
    &&& g.name == f.name
    &&& g.dirinfo == f.dirinfo
}

impl File {
    /// A fresh file with that descriptor and name.
    pub open spec fn is(&self, fd: i32, name: Seq<u8>) -> bool {
        self.fd == fd && self.name@ == name && self.dirinfo is None
    }

    /// A file over a descriptor; its number is cut to 32 bits.
    pub fn NewFile(fd: i64, name: Vec<u8>) -> (r: File)
        ensures
            r.is(fd as i32, name@),
    {
        File { fd: fd as i32, name, dirinfo: None }
    }

    pub fn Fd(&self) -> (r: usize)
        ensures
            r == self.fd as usize,
    {
        self.fd as usize
    }

    pub fn Name(&self) -> (r: Vec<u8>)
        ensures
            r@ == self.name@,
    {
        copy_bytes(self.name.as_slice())
    }

    /// An error of this file; the end of a file is passed on as it is.
    pub fn wrapErr(&self, op: &str, err: Error) -> (r: Error)
        requires
            err is Eof || err is Bare,
        ensures
            r@ == (match err@ {
                ErrorView::Bare(c) => ErrorView::Path {
                    op: gostr::lit(op),
                    path: self.name@,
                    err: c,
                },
                e => e,
            }),
    {
        match err {
            Error::Bare(c) => pathErr(text(op).as_slice(), self.name.as_slice(), c),
            e => e,
        }
    }

    /// The error of a failed operation on this file.
    pub fn fdErr(&self, op: &str, rc: i64) -> (r: Error)
        requires
            errors::valid_rc(rc),
            rc < 0,
        ensures
            r@ == file_error(gostr::lit(op), self.name@, self.fd, rc),
    {
        self.begin(op).failure(rc)
    }

    fn begin(&self, op: &str) -> (r: FileOp)
        ensures
            r.is(gostr::lit(op), self.name@, self.fd),
    {
        FileOp { op: text(op), name: copy_bytes(self.name.as_slice()), fd: self.fd }
    }

    fn begin_open(&self, op: &str, call: Call) -> (r: Result<(Call, FileOp), Error>)
        ensures
            match r {
                Ok((c, o)) => self.fd >= 0 && c == call && o.is(gostr::lit(op), self.name@, self.fd),
                Err(e) => self.fd < 0 && e@ == closed_error(gostr::lit(op), self.name@),
            },
    {
        if self.fd < 0 {
            Err(pathErr(text(op).as_slice(), self.name.as_slice(), Cause::Closed))
        } else {
            Ok((call, self.begin(op)))
        }
    }

    pub fn Stat(&self) -> (r: (Call, FileOp))
        ensures
            r.0 == (Call::Fstat { fd: self.fd }),
            r.1.is(gostr::lit("stat"), self.name@, self.fd),
    {
        (Call::Fstat { fd: self.fd }, self.begin("stat"))
    }

    pub fn Seek(&self, offset: i64, whence: i64) -> (r: (Call, FileOp))
        ensures
            r.0 == (Call::Lseek { fd: self.fd, offset, whence: whence as i32 }),
            r.1.is(gostr::lit("seek"), self.name@, self.fd),
    {
        (Call::Lseek { fd: self.fd, offset, whence: whence as i32 }, self.begin("seek"))
    }

    pub fn Chdir(&self) -> (r: Result<(Call, FileOp), Error>)
        ensures
            on_open_file(
                r,
                *self,
                gostr::lit("chdir"),
                r->Ok_0.0 == (Call::Fchdir { fd: self.fd }),
            ),
    {
        self.begin_open("chdir", Call::Fchdir { fd: self.fd })
    }

    /// Sets the owner; the numbers are cut to 32 bits.
    pub fn Chown(&self, uid: i64, gid: i64) -> (r: Result<(Call, FileOp), Error>)
        ensures
            on_open_file(
                r,
                *self,
                gostr::lit("chown"),
                r->Ok_0.0 == (Call::Fchown {
                    fd: self.fd,
                    uid: (uid as i32) as u32,
                    gid: (gid as i32) as u32,
                }),
            ),
    {
        self.begin_open(
            "chown",
            Call::Fchown { fd: self.fd, uid: (uid as i32) as u32, gid: (gid as i32) as u32 },
        )
    }

    pub fn Chmod(&self, mode: FileMode) -> (r: Result<(Call, FileOp), Error>)
        ensures
            on_open_file(
                r,
                *self,
                gostr::lit("chmod"),
                r->Ok_0.0 == (Call::Fchmod { fd: self.fd, mode: fileinfo::sys_mode(mode) }),
            ),
    {
        self.begin_open("chmod", Call::Fchmod { fd: self.fd, mode: syscallMode(mode) })
    }

    pub fn Truncate(&self, size: i64) -> (r: Result<(Call, FileOp), Error>)
        ensures
            on_open_file(
                r,
                *self,
                gostr::lit("truncate"),
                r->Ok_0.0 == (Call::Ftruncate { fd: self.fd, size }),
            ),
    {
        self.begin_open("truncate", Call::Ftruncate { fd: self.fd, size })
    }

    pub fn Sync(&self) -> (r: Result<(Call, FileOp), Error>)
        ensures
            on_open_file(r, *self, gostr::lit("sync"), r->Ok_0.0 == (Call::Fsync { fd: self.fd })),
    {
        self.begin_open("sync", Call::Fsync { fd: self.fd })
    }

    /// Closes the file. The descriptor is given up whatever the kernel says of
    /// it; closing a closed file is an error.
    pub fn Close(&mut self) -> (r: Result<(Call, FileOp), Error>)
        ensures
            closes(*old(self), *final(self), r),
    {
        let r = self.begin_open("close", Call::Close { fd: self.fd });
        if self.fd >= 0 {
            self.fd = -1;
        }
        r
    }

    /// Writes at a position, in one call.
    pub fn WriteAt(&self, len: usize, off: i64) -> (r: Result<(Call, FileOp), Error>)
        ensures
            on_open_file(
                r,
                *self,
                gostr::lit("write"),
                r->Ok_0.0 == (Call::Pwrite { fd: self.fd, len, at: off }),
            ),
    {
        self.begin_open("write", Call::Pwrite { fd: self.fd, len, at: off })
    }

    /// Reads into a buffer of `len` bytes, in one call.
    pub fn Read(&self, len: usize) -> (r: (Call, FileOp))
        ensures
            r.0 == (Call::Read { fd: self.fd, len }),
            r.1.is(gostr::lit("read"), self.name@, self.fd),
    {
        (Call::Read { fd: self.fd, len }, self.begin("read"))
    }

    /// Starts writing `total` bytes; see `Transfer::wrote`.
    pub fn Write(&self, total: usize) -> (r: TransferStep)
        requires
            total <= i64::MAX,
        ensures
            transfer_goes_on(r, gostr::lit("write"), self.name@, self.fd, total as int, 0, None),
    {
        let op = self.begin("write");
        let t = Transfer { op, total, n: 0, at: None };
        t.proceed()
    }

    /// Starts writing the bytes of a string.
    pub fn WriteString(&self, s: &Vec<u8>) -> (r: TransferStep)
        requires
            s@.len() <= i64::MAX,
        ensures
            transfer_goes_on(r, gostr::lit("write"), self.name@, self.fd, s@.len() as int, 0, None),
    {
        self.Write(s.len())
    }

    /// Starts reading `total` bytes from a position; see `Transfer::read`.
    pub fn ReadAt(&self, total: usize, off: i64) -> (r: TransferStep)
        requires
            self.fd >= 0 && off >= 0 ==> off + total <= i64::MAX,
        ensures
            if self.fd < 0 {
                transfer_ends(r, 0, Some(closed_error(gostr::lit("read"), self.name@)))
            } else if off < 0 {
                transfer_ends(
                    r,
                    0,
                    Some(
                        ErrorView::Path {
                            op: gostr::lit("readat"),
                            path: self.name@,
                            err: CauseView::Message(gostr::lit("negative offset")),
                        },
                    ),
                )
            } else {
                transfer_goes_on(r, gostr::lit("read"), self.name@, self.fd, total as int, 0, Some(off))
            },
    {
        if self.fd < 0 {
            return TransferStep::Done(
                0,
                Some(pathErr(text("read").as_slice(), self.name.as_slice(), Cause::Closed)),
            );
        }
        if off < 0 {
            return TransferStep::Done(
                0,
                Some(
                    pathErr(
                        text("readat").as_slice(),
                        self.name.as_slice(),
                        Cause::Message(text("negative offset")),
                    ),
                ),
            );
        }
        let t = Transfer { op: self.begin("read"), total, n: 0, at: Some(off) };
        t.proceed()
    }
}

// ---- transfers that take several calls ----

/// A write or a positioned read of `total` bytes, of which `n` are done.
pub struct Transfer {
    pub op: FileOp,
    pub total: usize,
    pub n: usize,
    /// Where the first byte stands in the file; nothing for a write.
    pub at: Option<i64>,
}

pub enum TransferStep {
    Call(Call, Transfer),
    /// How many bytes were moved, and what stopped the transfer early.
    Done(i64, Option<Error>),
}

/// The call that moves the rest of a transfer.
pub open spec fn transfer_call(fd: i32, total: int, n: int, at: Option<i64>) -> Call {
    match at {
        None => Call::Write { fd, start: n as usize, len: (total - n) as usize },
        Some(off) => Call::Pread {
            fd,
            start: n as usize,
            len: (total - n) as usize,
            at: (off + n) as i64,
        },
    }
}

pub open spec fn transfer_ends(r: TransferStep, n: int, err: Option<ErrorView>) -> bool {
    r matches TransferStep::Done(k, e) && k == n && errors::err_view(e) == err
}

/// With `n` of `total` bytes done: the call for the rest, or the end.
pub open spec fn transfer_goes_on(
    r: TransferStep,
    op: Seq<u8>,
    name: Seq<u8>,
    fd: i32,
    total: int,
    n: int,
    at: Option<i64>,
) -> bool {
    if n >= total {
        transfer_ends(r, n, None)
    } else {
        r matches TransferStep::Call(c, t) && c == transfer_call(fd, total, n, at) && t.op.is(
            op,
            name,
            fd,
        ) && t.total == total && t.n == n && t.at == at && t.wf()
    }
}

/// What follows a write of which the kernel has taken `rc` bytes, or which it
/// has refused.
pub open spec fn after_write(t: Transfer, rc: i64, r: TransferStep) -> bool {
    if rc > 0 {
        transfer_goes_on(r, t.op.op@, t.op.name@, t.op.fd, t.total as int, t.n + rc, t.at)
    } else {
        let code = if rc == 0 {
            (-5) as i64
        } else {
            rc
        };
        transfer_ends(r, t.n as int, Some(file_error(t.op.op@, t.op.name@, t.op.fd, code)))
    }
}

/// What follows a positioned read that gave `rc` bytes, or failed.
pub open spec fn after_read_at(t: Transfer, rc: i64, r: TransferStep) -> bool {
    if rc > 0 {
        transfer_goes_on(
            r,
            t.op.op@,
            t.op.name@,
            t.op.fd,
            t.total as int,
            t.n + rc,
            t.at,
        )
    } else if rc == 0 {
        transfer_ends(r, t.n as int, Some(ErrorView::Eof))
    } else {
        transfer_ends(
            r,
            t.n as int,
            Some(file_error(t.op.op@, t.op.name@, t.op.fd, rc)),
        )
    }
}

impl Transfer {
    pub open spec fn wf(&self) -> bool {
        &&& self.n <= self.total <= i64::MAX
        &&& self.at matches Some(off) ==> off >= 0 && off + self.total <= i64::MAX
    }

    fn proceed(self) -> (r: TransferStep)
        requires
            self.wf(),
        ensures
            transfer_goes_on(
                r,
                self.op.op@,
                self.op.name@,
                self.op.fd,
                self.total as int,
                self.n as int,
                self.at,
            ),
    {
        if self.n >= self.total {
            return TransferStep::Done(self.n as i64, None);
        }
        let fd: i32 = self.op.fd;
        let len: usize = self.total - self.n;
        let call = match self.at {
            None => Call::Write { fd, start: self.n, len },
            Some(off) => Call::Pread { fd, start: self.n, len, at: off + self.n as i64 },
        };
        TransferStep::Call(call, self)
    }

    /// What follows a write. Writing nothing is an input/output error, so that
    /// a full device cannot make the loop spin.
    pub fn wrote(self, rc: i64) -> (r: TransferStep)
        requires
            self.wf(),
            errors::valid_rc(rc),
            rc <= self.total - self.n,
        ensures
            after_write(self, rc, r),
    {
        if rc < 0 {
            return TransferStep::Done(self.n as i64, Some(self.op.failure(rc)));
        }
        if rc == 0 {
            return TransferStep::Done(self.n as i64, Some(self.op.failure(-5)));
        }
        let n: usize = self.n + rc as usize;
        Transfer { op: self.op, total: self.total, n, at: self.at }.proceed()
    }

    /// What follows a positioned read. Reading nothing is the end of the file.
    pub fn read(self, rc: i64) -> (r: TransferStep)
        requires
            self.wf(),
            errors::valid_rc(rc),
            rc <= self.total - self.n,
        ensures
            after_read_at(self, rc, r),
    {
        if rc < 0 {
            return TransferStep::Done(self.n as i64, Some(self.op.failure(rc)));
        }
        if rc == 0 {
            return TransferStep::Done(self.n as i64, Some(Error::Eof));
        }
        let n: usize = self.n + rc as usize;
        Transfer { op: self.op, total: self.total, n, at: self.at }.proceed()
    }
}

/// While bytes are missing, a write asks for exactly the missing ones, behind
/// those that the kernel took; when none is, it ends with the whole count. One
/// that moves nothing ends with error 5, a refused one with the kernel's.
pub proof fn law_write_takes_what_is_left(t: Transfer, rc: i64, r: TransferStep)
    requires
        t.wf(),
        t.at is None,
        t.op.fd >= 0,
        rc <= t.total - t.n,
        after_write(t, rc, r),
    ensures
        rc > 0 && t.n + rc < t.total ==> (r matches TransferStep::Call(
            Call::Write { fd, start, len },
            next,
        ) && fd == t.op.fd && start == t.n + rc && start + len == t.total && next.n == start
            && next.total == t.total && next.at == t.at && next.op.is(t.op.op@, t.op.name@, t.op.fd)),
        rc > 0 && t.n + rc == t.total ==> r == TransferStep::Done(t.total as i64, None),
        rc == 0 ==> (r matches TransferStep::Done(k, Some(e)) && k == t.n && e@ == (ErrorView::Path {
            op: t.op.op@,
            path: t.op.name@,
            err: CauseView::Errno(5),
        })),
        rc < 0 ==> (r matches TransferStep::Done(k, Some(e)) && k == t.n && e@ == (ErrorView::Path {
            op: t.op.op@,
            path: t.op.name@,
            err: CauseView::Errno((-rc) as i32),
        })),
{
}

/// While bytes are missing, a positioned read asks for exactly the missing
/// ones, where they stand in the file; when none is, it ends with the whole
/// count. The end of the file ends it with what was read.
pub proof fn law_positioned_read_asks_for_what_is_left(t: Transfer, off: i64, rc: i64, r: TransferStep)
    requires
        t.wf(),
        t.at == Some(off),
        t.op.fd >= 0,
        rc <= t.total - t.n,
        after_read_at(t, rc, r),
    ensures
        rc > 0 && t.n + rc < t.total ==> (r matches TransferStep::Call(
            Call::Pread { fd, start, len, at },
            next,
        ) && fd == t.op.fd && start == t.n + rc && start + len == t.total && at == off + start
            && next.n == start && next.total == t.total && next.at == t.at && next.op.is(
            t.op.op@,
            t.op.name@,
            t.op.fd,
        )),
        rc > 0 && t.n + rc == t.total ==> r == TransferStep::Done(t.total as i64, None),
        rc == 0 ==> r == TransferStep::Done(t.n as i64, Some(Error::Eof)),
        rc < 0 ==> (r matches TransferStep::Done(k, Some(e)) && k == t.n && e@ == (ErrorView::Path {
            op: t.op.op@,
            path: t.op.name@,
            err: CauseView::Errno((-rc) as i32),
        })),
{
}

/// An operation on a closed file reports it as closed, whatever the code; on
/// an open one, the code is the error.
pub proof fn law_closed_file_is_reported(op: Seq<u8>, name: Seq<u8>, fd: i32, e: i32)
    requires
        e > 0,
    ensures
        fd < 0 ==> file_error(op, name, fd, (-e) as i64) == (ErrorView::Path {
            op,
            path: name,
            err: CauseView::Closed,
        }),
        fd >= 0 ==> file_error(op, name, fd, (-e) as i64) == (ErrorView::Path {
            op,
            path: name,
            err: CauseView::Errno(e),
        }),
{
}

/// What was read is counted; nothing read is the end of the file, and where
/// only a position or a count is asked for it is none. A refusal is the
/// kernel's error.
pub proof fn law_answers_of_the_kernel(o: FileOp, rc: i64)
    requires
        o.fd >= 0,
    ensures
        rc > 0 ==> read_answer(o, rc) == (rc as int, None::<ErrorView>),
        rc >= 0 ==> counted_answer(o, rc) == (rc as int, None::<ErrorView>),
        read_answer(o, 0) == (0int, Some(ErrorView::Eof)),
        rc < 0 ==> read_answer(o, rc) == counted_answer(o, rc) && counted_answer(o, rc) == (
            0int,
            Some(
                ErrorView::Path {
                    op: o.op@,
                    path: o.name@,
                    err: CauseView::Errno((-rc) as i32),
                },
            ),
        ),
{
}

/// A file is closed once: the first close gives its descriptor up, and the next
/// one says that the file is closed.
pub proof fn law_file_is_closed_once(
    f: File,
    g: File,
    h: File,
    r1: Result<(Call, FileOp), Error>,
    r2: Result<(Call, FileOp), Error>,
)
    requires
        f.fd >= 0,
        closes(f, g, r1),
        closes(g, h, r2),
    ensures
        r1 matches Ok((c, o)) && c == (Call::Close { fd: f.fd }) && o.is(
            gostr::lit("close"),
            f.name@,
            f.fd,
        ),
        g.fd < 0 && h.fd < 0 && h.name@ == f.name@,
        r2 matches Err(e) && e@ == (ErrorView::Path {
            op: gostr::lit("close"),
            path: f.name@,
            err: CauseView::Closed,
        }),
{
}

/// An operation on an open file is the call that was wanted, under its own name
/// and the file's; on a closed one it is refused.
pub proof fn law_open_file_takes_the_call(
    r: Result<(Call, FileOp), Error>,
    f: File,
    op: Seq<u8>,
    wanted: bool,
)
    requires
        on_open_file(r, f, op, wanted),
    ensures
        f.fd >= 0 ==> wanted && (r matches Ok((c, o)) && o.op@ == op && o.name@ == f.name@ && o.fd
            == f.fd),
        f.fd < 0 ==> (r matches Err(e) && e@ == (ErrorView::Path {
            op,
            path: f.name@,
            err: CauseView::Closed,
        })),
{
}

} // verus!
