//! Errors of the operating-system layer.

use vstd::prelude::*;

use crate::gostr::{append, copy_bytes, text};
use crate::gostr;

verus! {

pub const ENOENT: i32 = 2;

pub const EEXIST: i32 = 17;

pub const ENOTDIR: i32 = 20;

/// Why an operation failed.
#[derive(Debug)]
pub enum Cause {
    Errno(i32),
    /// The file was closed before.
    Closed,
    /// The directory was closed before.
    FileClosing,
    Invalid,
    Message(Vec<u8>),
}

/// A failed operation on a path.
#[derive(Debug)]
pub struct PathError {
    pub Op: Vec<u8>,
    pub Path: Vec<u8>,
    pub Err: Cause,
}

/// A failed operation on two paths.
#[derive(Debug)]
pub struct LinkError {
    pub Op: Vec<u8>,
    pub Old: Vec<u8>,
    pub New: Vec<u8>,
    pub Err: Cause,
}

/// A failed system call.
#[derive(Debug)]
pub struct SyscallError {
    pub Syscall: Vec<u8>,
    pub Err: Cause,
}

#[derive(Debug)]
pub enum Error {
    Eof,
    Bare(Cause),
    Path(PathError),
    Link(LinkError),
    Syscall(SyscallError),
}

pub enum CauseView {
    Errno(i32),
    Closed,
    FileClosing,
    Invalid,
    Message(Seq<u8>),
}

pub enum ErrorView {
    Eof,
    Bare(CauseView),
    Path { op: Seq<u8>, path: Seq<u8>, err: CauseView },
    Link { op: Seq<u8>, old: Seq<u8>, new: Seq<u8>, err: CauseView },
    Syscall { call: Seq<u8>, err: CauseView },
}

impl View for Cause {
    type V = CauseView;

    open spec fn view(&self) -> CauseView {
        match self {
            Cause::Errno(e) => CauseView::Errno(*e),
            Cause::Closed => CauseView::Closed,
            Cause::FileClosing => CauseView::FileClosing,
            Cause::Invalid => CauseView::Invalid,
            Cause::Message(m) => CauseView::Message(m@),
        }
    }
}

impl View for Error {
    type V = ErrorView;

    open spec fn view(&self) -> ErrorView {
        match self {
            Error::Eof => ErrorView::Eof,
            Error::Bare(c) => ErrorView::Bare(c@),
            Error::Path(e) => ErrorView::Path { op: e.Op@, path: e.Path@, err: e.Err@ },
            Error::Link(e) => ErrorView::Link {
                op: e.Op@,
                old: e.Old@,
                new: e.New@,
                err: e.Err@,
            },
            Error::Syscall(e) => ErrorView::Syscall { call: e.Syscall@, err: e.Err@ },
        }
    }
}

/// An optional error by its view; `None` is success.
pub open spec fn err_view(e: Option<Error>) -> Option<ErrorView> {
    match e {
        Some(x) => Some(x@),
        None => None,
    }
}

/// A kernel return code whose error number fits.
pub open spec fn valid_rc(rc: i64) -> bool {
    rc > -0x8000_0000
}

pub open spec fn errno_of(rc: i64) -> CauseView {
    CauseView::Errno((-rc) as i32)
}

/// The error number of a negative return code.
pub fn errno(rc: i64) -> (r: Cause)
    requires
        valid_rc(rc),
        rc < 0,
    ensures
        r@ == errno_of(rc),
{
    Cause::Errno((-rc) as i32)
}

pub fn message(s: &str) -> (r: Error)
    ensures
        r@ == ErrorView::Bare(CauseView::Message(gostr::lit(s))),
{
    Error::Bare(Cause::Message(text(s)))
}

/// The error of a failed operation on a path.
pub fn pathErr(op: &[u8], path: &[u8], err: Cause) -> (r: Error)
    ensures
        r@ == (ErrorView::Path { op: op@, path: path@, err: err@ }),
{
    Error::Path(PathError { Op: copy_bytes(op), Path: copy_bytes(path), Err: err })
}

/// The error of a failed operation on two paths.
pub fn linkErr(op: &[u8], old_path: &[u8], new_path: &[u8], err: Cause) -> (r: Error)
    ensures
        r@ == (ErrorView::Link { op: op@, old: old_path@, new: new_path@, err: err@ }),
{
    Error::Link(
        LinkError {
            Op: copy_bytes(op),
            Old: copy_bytes(old_path),
            New: copy_bytes(new_path),
            Err: err,
        },
    )
}

pub fn NewSyscallError(call: &str, err: Cause) -> (r: Error)
    ensures
        r@ == (ErrorView::Syscall { call: gostr::lit(call), err: err@ }),
{
    Error::Syscall(SyscallError { Syscall: text(call), Err: err })
}

/// What an error is about, without its path.
pub open spec fn cause_of(e: ErrorView) -> Option<CauseView> {
    match e {
        ErrorView::Eof => None,
        ErrorView::Bare(c) => Some(c),
        ErrorView::Path { op: _, path: _, err } => Some(err),
        ErrorView::Link { op: _, old: _, new: _, err } => Some(err),
        ErrorView::Syscall { call: _, err } => Some(err),
    }
}

fn is_enoent(c: &Cause) -> (r: bool)
    ensures
        r == (c@ == CauseView::Errno(ENOENT)),
{
    match c {
        Cause::Errno(e) => *e == ENOENT,
        _ => false,
    }
}

/// Whether an error says that a file does not exist.
pub fn IsNotExist(e: &Error) -> (r: bool)
    ensures
        r == (cause_of(e@) == Some(CauseView::Errno(ENOENT))),
{
    match e {
        Error::Eof => false,
        Error::Bare(c) => is_enoent(c),
        Error::Path(p) => is_enoent(&p.Err),
        Error::Link(l) => is_enoent(&l.Err),
        Error::Syscall(s) => is_enoent(&s.Err),
    }
}

impl LinkError {
    /// The text of the error, `cause` being the text of its cause.
    pub fn Error(&self, cause: &[u8]) -> (r: Vec<u8>)
        ensures
            r@ == self.Op@ + gostr::lit(" ") + self.Old@ + gostr::lit(" ") + self.New@ + gostr::lit(": ") + cause@,
    {
        let mut out = copy_bytes(self.Op.as_slice());
        append(&mut out, text(" ").as_slice());
        append(&mut out, self.Old.as_slice());
        append(&mut out, text(" ").as_slice());
        append(&mut out, self.New.as_slice());
        append(&mut out, text(": ").as_slice());
        append(&mut out, cause);
        out
    }

    /// The cause of the error.
    pub fn Unwrap(&self) -> (r: &Cause)
        ensures
            *r == self.Err,
    {
        &self.Err
    }
}

/// A negative return code is the error of that number, and different codes are
/// different errors.
pub proof fn law_return_code_is_the_error(e: i32, f: i32)
    requires
        0 < e,
        0 < f,
    ensures
        errno_of((-e) as i64) == CauseView::Errno(e),
        errno_of((-e) as i64) == errno_of((-f) as i64) ==> e == f,
        valid_rc((-e) as i64),
{
}

/// What an error is about does not depend on what it says beside it.
pub proof fn law_cause_is_inside(c: CauseView, op: Seq<u8>, a: Seq<u8>, b: Seq<u8>)
    ensures
        cause_of(ErrorView::Bare(c)) == Some(c),
        cause_of(ErrorView::Path { op, path: a, err: c }) == Some(c),
        cause_of(ErrorView::Link { op, old: a, new: b, err: c }) == Some(c),
        cause_of(ErrorView::Syscall { call: op, err: c }) == Some(c),
        cause_of(ErrorView::Eof) is None,
{
}

} // verus!
