//! Reading directories: a block of records at a time, handed out in batches.

use vstd::prelude::*;

use crate::dwarf_util::le16;
use crate::errors::{pathErr, Cause, Error, IsNotExist};
use crate::file::{DirInfo, File};
use crate::fileinfo::{direntType, FileInfoData, FileMode, ModeDir, ModeType, TYPE_UNKNOWN};
use crate::gostr::{append, c_string, concat, copy_bytes, cut_at_nul, text, Name};
use crate::macho::is_dot_name;
use crate::os::{Lstat, Open, OpenOp, StatOp};
use crate::sort::stable_order;
use crate::syscall::{Call, Stat_t, Target, O_RDONLY};
use crate::{dwarf_util, errors, file, fileinfo, gostr, line, macho, os, sort};

verus! {

use crate::errors::{CauseView, ErrorView};
use crate::fileinfo::InfoView;

/// An entry of a directory.
pub struct UnixDirent {
    pub parent: Vec<u8>,
    pub name: Vec<u8>,
    pub typ: FileMode,
    /// What is known of the file, when its type had to be looked up.
    pub info: Option<FileInfoData>,
}

pub struct DirentView {
    pub parent: Seq<u8>,
    pub name: Seq<u8>,
    pub typ: FileMode,
    pub info: Option<InfoView>,
}

pub open spec fn opt_info(i: Option<FileInfoData>) -> Option<InfoView> {
    match i {
        Some(x) => Some(x@),
        None => None,
    }
}

impl View for UnixDirent {
    type V = DirentView;

    open spec fn view(&self) -> DirentView {
        DirentView {
            parent: self.parent@,
            name: self.name@,
            typ: self.typ,
            info: opt_info(self.info),
        }
    }
}

/// The path of a file in a directory.
pub open spec fn child_path(parent: Seq<u8>, name: Seq<u8>) -> Seq<u8> {
    parent + gostr::lit("/") + name
}

pub fn child(parent: &Vec<u8>, name: &Vec<u8>) -> (r: Vec<u8>)
    ensures
        r@ == child_path(parent@, name@),
{
    let mut p = concat(parent.as_slice(), text("/").as_slice());
    append(&mut p, name.as_slice());
    p
}

pub enum InfoStep {
    Known(FileInfoData),
    Ask(Call, StatOp),
}

impl UnixDirent {
    pub fn Name(&self) -> (r: Vec<u8>)
        ensures
            r@ == self.name@,
    {
        copy_bytes(self.name.as_slice())
    }

    pub fn IsDir(&self) -> (r: bool)
        ensures
            r == (self.typ.0 & ModeDir != 0),
    {
        self.typ.0 & ModeDir != 0
    }

    pub fn Type(&self) -> (r: FileMode)
        ensures
            r == self.typ,
    {
        self.typ
    }

    /// What is known of the file; it is examined if it was not before.
    pub fn Info(&self) -> (r: InfoStep)
        ensures
            match self.info {
                Some(i) => r matches InfoStep::Known(k) && k@ == i@,
                None => r matches InfoStep::Ask(Call::Lstat { path }, op) && path@ == gostr::c_path(
                    child_path(self.parent@, self.name@),
                ) && op.is(gostr::lit("lstat"), child_path(self.parent@, self.name@)),
            },
    {
        match &self.info {
            Some(i) => InfoStep::Known(i.copy()),
            None => {
                let full = child(&self.parent, &self.name);
                let (c, op) = Lstat(&full);
                InfoStep::Ask(c, op)
            },
        }
    }

    pub fn copy(&self) -> (r: UnixDirent)
        ensures
            r@ == self@,
    {
        let info = match &self.info {
            Some(i) => Some(i.copy()),
            None => None,
        };
        UnixDirent {
            parent: copy_bytes(self.parent.as_slice()),
            name: copy_bytes(self.name.as_slice()),
            typ: self.typ,
            info,
        }
    }
}

/// An entry whose type the kernel gave.
pub open spec fn typed_dirent(parent: Seq<u8>, name: Seq<u8>, typ: FileMode) -> DirentView {
    DirentView { parent, name, typ, info: None }
}

/// An entry whose type had to be looked up.
pub open spec fn examined_dirent(parent: Seq<u8>, name: Seq<u8>, info: InfoView) -> DirentView {
    DirentView { parent, name, typ: FileMode(info.mode.0 & ModeType), info: Some(info) }
}

pub fn newUnixDirent(parent: &Vec<u8>, name: Vec<u8>, typ: FileMode, info: Option<FileInfoData>) -> (r:
    UnixDirent)
    ensures
        r@ == (match opt_info(info) {
            Some(i) => examined_dirent(parent@, name@, i),
            None => typed_dirent(parent@, name@, typ),
        }),
{
    let t = match &info {
        Some(i) => FileMode(i.mode.0 & ModeType),
        None => typ,
    };
    UnixDirent { parent: copy_bytes(parent.as_slice()), name, typ: t, info }
}

/// What a listing collects.
#[derive(Clone, Copy, Debug, PartialEq, Eq, Structural)]
pub enum ReaddirMode {
    Names,
    Dirents,
    Infos,
}

/// A listing in progress.
pub struct Listing {
    /// How many entries were asked for; none or fewer asks for all.
    pub n: i64,
    /// How many entries may still be delivered; negative means any number.
    pub left: i64,
    pub mode: ReaddirMode,
    /// Whether a record of no length, or one that does not end in its block,
    /// is taken as the last of the block. Otherwise it ends the listing.
    pub whole: bool,
    pub names: Vec<Vec<u8>>,
    pub dirents: Vec<UnixDirent>,
    pub infos: Vec<FileInfoData>,
    /// The name that is being examined.
    pub pending: Option<Vec<u8>>,
}

#[verifier::ext_equal]
pub struct ListView {
    pub left: int,
    pub mode: ReaddirMode,
    pub whole: bool,
    pub names: Seq<Seq<u8>>,
    pub dirents: Seq<DirentView>,
    pub infos: Seq<InfoView>,
}

pub open spec fn dirent_views(s: Seq<UnixDirent>) -> Seq<DirentView> {
    Seq::new(s.len(), |i: int| s[i]@)
}

pub open spec fn info_views(s: Seq<FileInfoData>) -> Seq<InfoView> {
    Seq::new(s.len(), |i: int| s[i]@)
}

impl View for Listing {
    type V = ListView;

    open spec fn view(&self) -> ListView {
        ListView {
            left: self.left as int,
            mode: self.mode,
            whole: self.whole,
            names: line::byte_views(self.names@),
            dirents: dirent_views(self.dirents@),
            infos: info_views(self.infos@),
        }
    }
}

pub open spec fn one_less(left: int) -> int {
    if left > 0 {
        left - 1
    } else {
        left
    }
}

pub open spec fn took_name(l: ListView, name: Seq<u8>) -> ListView {
    ListView { left: one_less(l.left), names: l.names.push(name), ..l }
}

pub open spec fn took_dirent(l: ListView, d: DirentView) -> ListView {
    ListView { left: one_less(l.left), dirents: l.dirents.push(d), ..l }
}

pub open spec fn took_info(l: ListView, i: InfoView) -> ListView {
    ListView { left: one_less(l.left), infos: l.infos.push(i), ..l }
}

/// What a listing needs next.
pub enum Want {
    /// A fresh block of records.
    Fill,
    /// A file of that name examined.
    Examine(Seq<u8>),
    Nothing,
}

/// The length field of the record at `pos`.
pub open spec fn rec_len(b: Seq<u8>, pos: int) -> int {
    dwarf_util::le_value(b, pos + 16, 2)
}

/// The name field of the record at `pos`, cut at its NUL.
pub open spec fn rec_name(b: Seq<u8>, pos: int) -> Seq<u8> {
    let end = if rec_len(b, pos) < 19 {
        pos + 19
    } else if pos + rec_len(b, pos) > b.len() {
        b.len() as int
    } else {
        pos + rec_len(b, pos)
    };
    gostr::until_nul(b.subrange(pos + 19, end))
}

/// Whether a record stands at `pos` of a buffer that the kernel filled up to
/// `n`: its fields lie in the buffer, and it has a length with which it ends
/// in what was filled, unless that does not matter.
pub open spec fn rec_fits(b: Seq<u8>, n: int, pos: int, whole: bool) -> bool {
    pos + 19 <= b.len() && (whole || rec_len(b, pos) > 0 && pos + rec_len(b, pos) <= n)
}

/// Where the next record stands.
pub open spec fn rec_next(b: Seq<u8>, n: int, pos: int) -> int {
    if rec_len(b, pos) <= 0 || pos + rec_len(b, pos) > n {
        n
    } else {
        pos + rec_len(b, pos)
    }
}

/// Hands out the records of the buffer `b`, filled up to `n`, from `pos` on,
/// until the listing has what it wants or needs the kernel. A record that does
/// not fit ends it.
pub open spec fn hand_out(b: Seq<u8>, n: int, pos: int, parent: Seq<u8>, l: ListView) -> (
    int,
    ListView,
    Want,
)
    decreases n - pos,
{
    if l.left == 0 {
        (pos, l, Want::Nothing)
    } else if pos >= n {
        (pos, l, Want::Fill)
    } else if !rec_fits(b, n, pos, l.whole) {
        (pos, l, Want::Nothing)
    } else {
        let name = rec_name(b, pos);
        let next = rec_next(b, n, pos);
        if macho::is_dot(name) {
            hand_out(b, n, next, parent, l)
        } else if l.mode == ReaddirMode::Names {
            hand_out(b, n, next, parent, took_name(l, name))
        } else if l.mode == ReaddirMode::Dirents && fileinfo::dirent_mode(b[pos + 18]).0 != TYPE_UNKNOWN {
            hand_out(
                b,
                n,
                next,
                parent,
                took_dirent(l, typed_dirent(parent, name, fileinfo::dirent_mode(b[pos + 18]))),
            )
        } else {
            (next, l, Want::Examine(name))
        }
    }
}

/// A buffer whose first bytes the kernel has overwritten with a block.
pub open spec fn overlaid(buf: Seq<u8>, block: Seq<u8>) -> Seq<u8> {
    block + buf.subrange(block.len() as int, buf.len() as int)
}

/// An empty buffer.
pub open spec fn blank(len: nat) -> Seq<u8> {
    Seq::new(len, |i: int| 0u8)
}

fn blank_buffer(len: usize) -> (r: Vec<u8>)
    ensures
        r@ == blank(len as nat),
{
    let mut r: Vec<u8> = Vec::new();
    while r.len() < len
        invariant
            r@.len() <= len,
            r@ =~= blank(r@.len()),
        decreases len - r@.len(),
    {
        r.push(0);
    }
    r
}

impl DirInfo {
    pub open spec fn wf(&self) -> bool {
        self.nbuf <= self.buf@.len()
    }
}

impl File {
    pub open spec fn dir_wf(&self) -> bool {
        self.dirinfo matches Some(d) && d.wf()
    }
}

/// What `readdir` asks of its caller.
pub enum ReaddirStep {
    /// Read records; answer with `readdir_filled`.
    Fill(Call),
    /// Examine a file; answer with `readdir_examined`.
    Examine(Call),
    /// Collect the result with `readdir_end`.
    End,
}

pub open spec fn step_is(
    s: ReaddirStep,
    pending: Option<Vec<u8>>,
    w: Want,
    fd: i32,
    room: nat,
    parent: Seq<u8>,
) -> bool {
    match w {
        Want::Fill => s == ReaddirStep::Fill(Call::Getdents { fd, len: room as usize }),
        Want::Nothing => s is End,
        Want::Examine(name) => {
            &&& s matches ReaddirStep::Examine(Call::Lstat { path }) && path@ == gostr::c_path(
                child_path(parent, name),
            )
            &&& pending matches Some(p) && p@ == name
        },
    }
}

fn count_down(left: i64) -> (r: i64)
    ensures
        r == one_less(left as int),
{
    if left > 0 {
        left - 1
    } else {
        left
    }
}

impl File {
    fn start_listing(&mut self, n: i64, mode: ReaddirMode) -> (r: Result<Listing, Error>)
        ensures
            listing_started(*old(self), *final(self), r, n, mode),
    {
        if self.fd < 0 {
            return Err(
                pathErr(text("readdirent").as_slice(), self.name.as_slice(), Cause::FileClosing),
            );
        }
        if self.dirinfo.is_none() {
            self.dirinfo = Some(DirInfo { buf: blank_buffer(8192), nbuf: 0, bufp: 0 });
        }
        let l = Listing {
            n,
            left: if n == 0 {
                -1
            } else {
                n
            },
            mode,
            whole: false,
            names: Vec::new(),
            dirents: Vec::new(),
            infos: Vec::new(),
            pending: None,
        };
        assert(l@ =~= fresh_list(n, mode));
        Ok(l)
    }

    /// Starts listing names.
    pub fn Readdirnames(&mut self, n: i64) -> (r: Result<Listing, Error>)
        ensures
            listing_started(*old(self), *final(self), r, n, ReaddirMode::Names),
    {
        self.start_listing(n, ReaddirMode::Names)
    }

    /// Starts listing entries.
    pub fn ReadDir(&mut self, n: i64) -> (r: Result<Listing, Error>)
        ensures
            listing_started(*old(self), *final(self), r, n, ReaddirMode::Dirents),
    {
        self.start_listing(n, ReaddirMode::Dirents)
    }

    /// Starts listing what is known of each file.
    pub fn Readdir(&mut self, n: i64) -> (r: Result<Listing, Error>)
        ensures
            listing_started(*old(self), *final(self), r, n, ReaddirMode::Infos),
    {
        self.start_listing(n, ReaddirMode::Infos)
    }

    /// Hands out buffered records until the kernel is needed or the listing is
    /// complete. Records that were not delivered stay for the next listing.
    pub fn readdir(&mut self, run: &mut Listing) -> (r: ReaddirStep)
        requires
            old(self).dir_wf(),
        ensures
            final(self).dir_wf(),
            final(self).fd == old(self).fd,
            final(self).name == old(self).name,
            final(run).n == old(run).n,
            final(self).dirinfo->0.buf@ == old(self).dirinfo->0.buf@,
            final(self).dirinfo->0.nbuf == old(self).dirinfo->0.nbuf,
            ({
                let d = old(self).dirinfo->0;
                let (pos, l, w) = hand_out(
                    d.buf@,
                    d.nbuf as int,
                    d.bufp as int,
                    old(self).name@,
                    old(run)@,
                );
                &&& final(self).dirinfo->0.bufp == pos
                &&& final(run)@ == l
                &&& step_is(
                    r,
                    final(run).pending,
                    w,
                    old(self).fd,
                    old(self).dirinfo->0.buf@.len(),
                    old(self).name@,
                )
                &&& w is Examine || final(run).pending == old(run).pending
            }),
    {
        let mut d = DirInfo { buf: Vec::new(), nbuf: 0, bufp: 0 };
        match self.dirinfo.take() {
            Some(x) => {
                d = x;
            },
            None => {},
        }
        let step = d.deal(self.fd, &self.name, run);
        self.dirinfo = Some(d);
        step
    }

    /// Takes the kernel's answer to a request for records: what it put at the
    /// start of the buffer. The listing ends on an error and when there are no
    /// more; otherwise it goes on.
    pub fn readdir_filled(&mut self, rc: i64, block: &[u8]) -> (r: (bool, Option<Error>))
        requires
            old(self).dir_wf(),
            errors::valid_rc(rc),
            rc <= block@.len(),
            rc <= old(self).dirinfo->0.buf@.len(),
        ensures
            final(self).dir_wf(),
            final(self).fd == old(self).fd,
            final(self).name == old(self).name,
            final(self).dirinfo->0.bufp == 0,
            filled(*old(self), *final(self), rc, block@, r),
    {
        let mut d = DirInfo { buf: Vec::new(), nbuf: 0, bufp: 0 };
        match self.dirinfo.take() {
            Some(x) => {
                d = x;
            },
            None => {},
        }
        d.bufp = 0;
        d.nbuf = 0;
        let given_len: usize = block.len();
        if rc > 0 {
            assert(rc <= given_len);
            let n: usize = rc as usize;
            let ghost before = d.buf@;
            let ghost given = block@.subrange(0, n as int);
            let mut i: usize = 0;
            assert(overlaid(before, given.subrange(0, 0)) =~= before);
            while i < n
                invariant
                    i <= n <= block@.len(),
                    n <= before.len() == d.buf@.len(),
                    given == block@.subrange(0, n as int),
                    d.buf@ == overlaid(before, given.subrange(0, i as int)),
                    d.bufp == 0,
                    d.nbuf == 0,
                decreases n - i,
            {
                d.buf.set(i, block[i]);
                i = i + 1;
                assert(d.buf@ =~= overlaid(before, given.subrange(0, i as int)));
            }
            assert(given.subrange(0, n as int) =~= given);
            d.nbuf = n;
        }
        self.dirinfo = Some(d);
        if rc < 0 {
            return (false, Some(self.fdErr("readdirent", rc)));
        }
        (rc > 0, None)
    }
}

/// `g` and `r` follow the kernel's answer to a request for records.
pub open spec fn filled(f: File, g: File, rc: i64, block: Seq<u8>, r: (bool, Option<Error>)) -> bool {
    if rc > 0 {
        &&& r.0 && r.1 is None
        &&& g.dirinfo->0.buf@ == overlaid(
            f.dirinfo->0.buf@,
            block.subrange(0, rc as int),
        )
        &&& g.dirinfo->0.nbuf == rc
    } else {
        &&& !r.0
        &&& errors::err_view(r.1) == (if rc < 0 {
            Some(file::file_error(gostr::lit("readdirent"), f.name@, f.fd, rc))
        } else {
            None
        })
        &&& g.dirinfo->0.buf@ == f.dirinfo->0.buf@
        &&& g.dirinfo->0.nbuf == 0
    }
}

/// An empty listing of an open directory.
pub open spec fn fresh_list(n: i64, mode: ReaddirMode) -> ListView {
    start_list(n, mode, false)
}

pub open spec fn start_list(n: i64, mode: ReaddirMode, whole: bool) -> ListView {
    ListView {
        left: if n == 0 {
            -1
        } else {
            n as int
        },
        mode,
        whole,
        names: Seq::empty(),
        dirents: Seq::empty(),
        infos: Seq::empty(),
    }
}

/// A closed directory is refused. Otherwise the listing is empty, and the
/// records buffered before are kept.
pub open spec fn listing_started(
    before_file: File,
    after_file: File,
    r: Result<Listing, Error>,
    n: i64,
    mode: ReaddirMode,
) -> bool {
    if before_file.fd < 0 {
        &&& r matches Err(e) && e@ == (ErrorView::Path {
            op: gostr::lit("readdirent"),
            path: before_file.name@,
            err: CauseView::FileClosing,
        })
        &&& after_file == before_file
    } else {
        &&& r matches Ok(l) && l@ == fresh_list(n, mode) && l.n == n && l.pending is None
        &&& after_file.fd == before_file.fd
        &&& after_file.name == before_file.name
        &&& match before_file.dirinfo {
            Some(d) => after_file.dirinfo == Some(d),
            None => after_file.dirinfo matches Some(d) && d.buf@ == blank(8192) && d.nbuf == 0
                && d.bufp == 0,
        }
    }
}

impl DirInfo {
    fn deal(&mut self, fd: i32, parent: &Vec<u8>, run: &mut Listing) -> (r: ReaddirStep)
        requires
            old(self).wf(),
        ensures
            final(self).wf(),
            final(self).buf@ == old(self).buf@,
            final(self).nbuf == old(self).nbuf,
            final(run).n == old(run).n,
            ({
                let (pos, l, w) = hand_out(
                    old(self).buf@,
                    old(self).nbuf as int,
                    old(self).bufp as int,
                    parent@,
                    old(run)@,
                );
                &&& final(self).bufp == pos
                &&& final(run)@ == l
                &&& step_is(r, final(run).pending, w, fd, old(self).buf@.len(), parent@)
                &&& w is Examine || final(run).pending == old(run).pending
            }),
    {
        let ghost b = self.buf@;
        let ghost all = hand_out(b, self.nbuf as int, self.bufp as int, parent@, run@);
        loop
            invariant
                self.wf(),
                self.buf@ == b,
                b == old(self).buf@,
                self.nbuf == old(self).nbuf,
                all == hand_out(
                    old(self).buf@,
                    old(self).nbuf as int,
                    old(self).bufp as int,
                    parent@,
                    old(run)@,
                ),
                all == hand_out(b, self.nbuf as int, self.bufp as int, parent@, run@),
                run.n == old(run).n,
                run.pending == old(run).pending,
            decreases self.nbuf - self.bufp,
        {
            if run.left == 0 {
                return ReaddirStep::End;
            }
            let pos: usize = self.bufp;
            if pos >= self.nbuf {
                return ReaddirStep::Fill(Call::Getdents { fd, len: self.buf.len() });
            }
            if self.buf.len() < 19 || pos > self.buf.len() - 19 {
                return ReaddirStep::End;
            }
            let reclen: usize = le16(self.buf.as_slice(), pos + 16) as usize;
            proof {
                reveal_with_fuel(crate::dwarf_util::le_value, 3);
                assert(rec_len(b, pos as int) == reclen);
            }
            let inside = reclen > 0 && reclen <= self.nbuf - pos;
            if !inside && !run.whole {
                return ReaddirStep::End;
            }
            let end: usize = if reclen < 19 {
                pos + 19
            } else if reclen <= self.buf.len() - pos {
                pos + reclen
            } else {
                self.buf.len()
            };
            let name = cut_at_nul(self.buf.as_slice(), pos + 19, end);
            assert(name@ == rec_name(b, pos as int));
            let dtype: u8 = self.buf[pos + 18];
            assert(dtype == b[pos + 18]);
            self.bufp = if inside {
                pos + reclen
            } else {
                self.nbuf
            };
            if is_dot_name(&name) {
                continue;
            }
            let ghost l0 = run@;
            let ghost nv = name@;
            match run.mode {
                ReaddirMode::Names => {
                    run.left = count_down(run.left);
                    run.names.push(name);
                    assert(line::byte_views(run.names@) =~= l0.names.push(nv));
                    assert(run@ =~= took_name(l0, nv));
                },
                ReaddirMode::Dirents => {
                    let typ = direntType(dtype);
                    if typ.0 != TYPE_UNKNOWN {
                        let de = newUnixDirent(parent, name, typ, None);
                        let ghost dv = de@;
                        run.left = count_down(run.left);
                        run.dirents.push(de);
                        assert(dirent_views(run.dirents@) =~= l0.dirents.push(dv));
                        assert(run@ =~= took_dirent(l0, dv));
                    } else {
                        let full = child(parent, &name);
                        let call = Call::Lstat { path: c_string(&full) };
                        run.pending = Some(name);
                        return ReaddirStep::Examine(call);
                    }
                },
                ReaddirMode::Infos => {
                    let full = child(parent, &name);
                    let call = Call::Lstat { path: c_string(&full) };
                    run.pending = Some(name);
                    return ReaddirStep::Examine(call);
                },
            }
        }
    }
}

/// The listing after a file was examined: a file that is gone is left out,
/// another failure ends the listing.
pub open spec fn after_examine(
    l: ListView,
    parent: Seq<u8>,
    name: Seq<u8>,
    rc: i64,
    st: Stat_t,
) -> ListView {
    if rc < 0 {
        l
    } else {
        let info = fileinfo::info_of(fileinfo::base_of(child_path(parent, name)), st);
        if l.mode == ReaddirMode::Infos {
            took_info(l, info)
        } else {
            took_dirent(l, examined_dirent(parent, name, info))
        }
    }
}

/// Whether a listing goes on after a file was examined, and the error with
/// which it ends if not.
pub open spec fn examine_answer(parent: Seq<u8>, name: Seq<u8>, rc: i64) -> (
    bool,
    Option<ErrorView>,
) {
    if rc >= 0 || errors::errno_of(rc) == CauseView::Errno(errors::ENOENT) {
        (true, None)
    } else {
        (false, os::path_failure(gostr::lit("lstat"), child_path(parent, name), rc))
    }
}

/// How a listing of `n` entries ends that was stopped by `err`, if at all.
pub open spec fn end_answer(n: i64, l: ListView, err: Option<ErrorView>) -> Option<ErrorView> {
    match err {
        Some(e) => Some(e),
        None => if n > 0 && nothing_in(l) {
            Some(ErrorView::Eof)
        } else {
            None
        },
    }
}

impl Listing {
    /// Takes the kernel's answer to the examination of the pending name.
    /// Returns whether the listing goes on.
    pub fn readdir_examined(&mut self, parent: &Vec<u8>, rc: i64, st: &Stat_t) -> (r: (
        bool,
        Option<Error>,
    ))
        requires
            old(self).pending is Some,
            errors::valid_rc(rc),
        ensures
            final(self)@ == after_examine(old(self)@, parent@, old(self).pending->0@, rc, *st),
            final(self).pending is None,
            final(self).n == old(self).n,
            (r.0, errors::err_view(r.1)) == examine_answer(parent@, old(self).pending->0@, rc),
    {
        let mut name: Vec<u8> = Vec::new();
        match self.pending.take() {
            Some(x) => {
                name = x;
            },
            None => {},
        }
        let ghost nv = name@;
        let full = child(parent, &name);
        let (_call, op) = Lstat(&full);
        let (info, err) = op.done(rc, st);
        match err {
            Some(e) => {
                if IsNotExist(&e) {
                    return (true, None);
                }
                return (false, Some(e));
            },
            None => {},
        }
        let ghost l0 = self@;
        let ghost iv = info@;
        self.left = count_down(self.left);
        match self.mode {
            ReaddirMode::Infos => {
                self.infos.push(info);
                assert(info_views(self.infos@) =~= l0.infos.push(iv));
                assert(self@ =~= took_info(l0, iv));
            },
            _ => {
                let de = newUnixDirent(parent, name, FileMode(TYPE_UNKNOWN), Some(info));
                let ghost dv = de@;
                self.dirents.push(de);
                assert(dirent_views(self.dirents@) =~= l0.dirents.push(dv));
                assert(self@ =~= took_dirent(l0, dv));
            },
        }
        (true, None)
    }

    /// The result of a listing that ended with `err`: a bounded listing that
    /// found nothing is at the end of the directory.
    pub fn readdir_end(&self, err: Option<Error>) -> (r: Option<Error>)
        ensures
            errors::err_view(r) == end_answer(self.n, self@, errors::err_view(err)),
    {
        if err.is_some() {
            return err;
        }
        if self.n > 0 && self.names.len() == 0 && self.dirents.len() == 0 && self.infos.len()
            == 0 {
            return Some(Error::Eof);
        }
        None
    }
}

// ---- several blocks and several listings ----

/// A directory being read: the buffer, how far it was filled, the position in
/// it, and the blocks that the kernel still has.
pub struct DirState {
    pub buf: Seq<u8>,
    pub filled: int,
    pub pos: int,
    pub more: Seq<Seq<u8>>,
}

/// The kernel's answer to the examination of a file.
pub type Look = spec_fn(Seq<u8>) -> (i64, Stat_t);

/// Every file can be examined, or is gone.
pub open spec fn no_failure(look: Look) -> bool {
    forall|name: Seq<u8>|
        (#[trigger] look(name)).0 >= 0 || errors::errno_of(look(name).0) == CauseView::Errno(
            errors::ENOENT,
        )
}

/// The directory after the kernel has delivered its next block.
pub open spec fn next_block(s: DirState) -> DirState {
    DirState {
        buf: overlaid(s.buf, s.more[0]),
        filled: s.more[0].len() as int,
        pos: 0,
        more: s.more.drop_first(),
    }
}

/// A whole listing: records are handed out, and the kernel asked, until the
/// listing has what it wants or the kernel has no more.
pub open spec fn listed(s: DirState, parent: Seq<u8>, look: Look, l: ListView) -> (
    DirState,
    ListView,
)
    decreases s.more.len(), s.filled - s.pos,
    via listed_ends
{
    let (p, l2, w) = hand_out(s.buf, s.filled, s.pos, parent, l);
    match w {
        Want::Nothing => (DirState { pos: p, ..s }, l2),
        Want::Fill => if s.more.len() == 0 {
            (DirState { filled: 0, pos: 0, ..s }, l2)
        } else {
            listed(
                next_block(s),
                parent,
                look,
                l2,
            )
        },
        Want::Examine(name) => listed(
            DirState { pos: p, ..s },
            parent,
            look,
            after_examine(l2, parent, name, look(name).0, look(name).1),
        ),
    }
}

#[via_fn]
proof fn listed_ends(s: DirState, parent: Seq<u8>, look: Look, l: ListView) {
    lemma_hand_out_moves(s.buf, s.filled, s.pos, parent, l);
}

/// A file that is to be examined lies behind the position.
proof fn lemma_hand_out_moves(b: Seq<u8>, n: int, pos: int, parent: Seq<u8>, l: ListView)
    ensures
        ({
            let (p, _l2, w) = hand_out(b, n, pos, parent, l);
            w is Examine ==> pos < p <= n
        }),
    decreases n - pos,
{
    if l.left != 0 && pos < n && rec_fits(b, n, pos, l.whole) {
        let name = rec_name(b, pos);
        let next = rec_next(b, n, pos);
        lemma_hand_out_moves(b, n, next, parent, l);
        lemma_hand_out_moves(b, n, next, parent, took_name(l, name));
        lemma_hand_out_moves(
            b,
            n,
            next,
            parent,
            took_dirent(l, typed_dirent(parent, name, fileinfo::dirent_mode(b[pos + 18]))),
        );
    }
}

/// A record other than `.` and `..`.
pub struct Record {
    pub name: Seq<u8>,
    pub dtype: u8,
}

/// The records in a block from `pos` on, up to one that does not fit.
pub open spec fn records_from(b: Seq<u8>, n: int, pos: int, whole: bool) -> Seq<Record>
    decreases n - pos,
{
    if pos >= n || !rec_fits(b, n, pos, whole) {
        Seq::empty()
    } else {
        let rest = records_from(b, n, rec_next(b, n, pos), whole);
        if macho::is_dot(rec_name(b, pos)) {
            rest
        } else {
            seq![Record { name: rec_name(b, pos), dtype: b[pos + 18] }] + rest
        }
    }
}

/// Whether every record of a block fits.
pub open spec fn sound_from(b: Seq<u8>, n: int, pos: int, whole: bool) -> bool
    decreases n - pos,
{
    pos >= n || (rec_fits(b, n, pos, whole) && sound_from(b, n, rec_next(b, n, pos), whole))
}

/// The records of a directory that were not handed out. None is read behind
/// one that does not fit.
pub open spec fn records_left(s: DirState, whole: bool) -> Seq<Record>
    decreases s.more.len(),
{
    records_from(s.buf, s.filled, s.pos, whole) + if sound_from(s.buf, s.filled, s.pos, whole) && s.more.len() > 0 {
        records_left(next_block(s), whole)
    } else {
        Seq::empty()
    }
}

/// What a listing delivers of a file.
pub enum Entry {
    Name(Seq<u8>),
    Dirent(DirentView),
    Info(InfoView),
}

/// What a record gives in a mode; nothing if the file is gone by the time that
/// it is examined.
pub open spec fn entry_of(r: Record, mode: ReaddirMode, parent: Seq<u8>, look: Look) -> Option<
    Entry,
> {
    let (rc, st) = look(r.name);
    let info = fileinfo::info_of(fileinfo::base_of(child_path(parent, r.name)), st);
    if mode == ReaddirMode::Names {
        Some(Entry::Name(r.name))
    } else if mode == ReaddirMode::Dirents && fileinfo::dirent_mode(r.dtype).0 != TYPE_UNKNOWN {
        Some(Entry::Dirent(typed_dirent(parent, r.name, fileinfo::dirent_mode(r.dtype))))
    } else if rc < 0 {
        None
    } else if mode == ReaddirMode::Infos {
        Some(Entry::Info(info))
    } else {
        Some(Entry::Dirent(examined_dirent(parent, r.name, info)))
    }
}

/// What the records give, in their order.
pub open spec fn entries_of(rs: Seq<Record>, mode: ReaddirMode, parent: Seq<u8>, look: Look) -> Seq<
    Entry,
>
    decreases rs.len(),
{
    if rs.len() == 0 {
        Seq::empty()
    } else {
        let rest = entries_of(rs.drop_first(), mode, parent, look);
        match entry_of(rs[0], mode, parent, look) {
            Some(e) => seq![e] + rest,
            None => rest,
        }
    }
}

/// What is left to be delivered of a directory.
pub open spec fn entries_left(
    s: DirState,
    mode: ReaddirMode,
    whole: bool,
    parent: Seq<u8>,
    look: Look,
) -> Seq<Entry> {
    entries_of(records_left(s, whole), mode, parent, look)
}

/// What a listing has delivered.
pub open spec fn delivered(l: ListView) -> Seq<Entry> {
    match l.mode {
        ReaddirMode::Names => Seq::new(l.names.len(), |i: int| Entry::Name(l.names[i])),
        ReaddirMode::Dirents => Seq::new(l.dirents.len(), |i: int| Entry::Dirent(l.dirents[i])),
        ReaddirMode::Infos => Seq::new(l.infos.len(), |i: int| Entry::Info(l.infos[i])),
    }
}

/// The listing with one more entry.
pub open spec fn took(l: ListView, e: Entry) -> ListView {
    match e {
        Entry::Name(n) => took_name(l, n),
        Entry::Dirent(d) => took_dirent(l, d),
        Entry::Info(i) => took_info(l, i),
    }
}

/// Delivers records until the listing has what it wants; what is left of them.
pub open spec fn deliver(l: ListView, rs: Seq<Record>, parent: Seq<u8>, look: Look) -> (
    ListView,
    Seq<Record>,
)
    decreases rs.len(),
{
    if l.left == 0 || rs.len() == 0 {
        (l, rs)
    } else {
        let l2 = match entry_of(rs[0], l.mode, parent, look) {
            Some(e) => took(l, e),
            None => l,
        };
        deliver(l2, rs.drop_first(), parent, look)
    }
}

/// Handing out a block delivers its records in order. What follows the block
/// is `tail`.
proof fn lemma_hand_out_delivers(
    b: Seq<u8>,
    n: int,
    pos: int,
    parent: Seq<u8>,
    look: Look,
    l: ListView,
    tail: Seq<Record>,
)
    ensures
        ({
            let (p, l2, w) = hand_out(b, n, pos, parent, l);
            let all = deliver(l, records_from(b, n, pos, l.whole) + tail, parent, look);
            &&& l2.mode == l.mode && l2.whole == l.whole
            &&& sound_from(b, n, pos, l.whole) == sound_from(b, n, p, l.whole)
            &&& match w {
                Want::Fill => {
                    &&& sound_from(b, n, pos, l.whole)
                    &&& all == deliver(l2, tail, parent, look)
                    &&& records_from(b, n, p, l.whole) + tail == tail
                },
                Want::Nothing => {
                    &&& (l2.left == 0 || !sound_from(b, n, p, l.whole) && records_from(b, n, p, l.whole).len() == 0)
                    &&& all == deliver(l2, records_from(b, n, p, l.whole) + tail, parent, look)
                },
                Want::Examine(name) => all == deliver(
                    after_examine(l2, parent, name, look(name).0, look(name).1),
                    records_from(b, n, p, l.whole) + tail,
                    parent,
                    look,
                ),
            }
        }),
    decreases n - pos,
{
    if l.left == 0 {
    } else if pos >= n {
        assert(records_from(b, n, pos, l.whole) + tail =~= tail);
    } else if !rec_fits(b, n, pos, l.whole) {
    } else {
        let name = rec_name(b, pos);
        let next = rec_next(b, n, pos);
        let r = Record { name, dtype: b[pos + 18] };
        if macho::is_dot(name) {
            lemma_hand_out_delivers(b, n, next, parent, look, l, tail);
        } else {
            let all = records_from(b, n, pos, l.whole) + tail;
            let rest = records_from(b, n, next, l.whole) + tail;
            assert(all[0] == r);
            assert(all.drop_first() =~= rest);
            if l.mode == ReaddirMode::Names {
                lemma_hand_out_delivers(b, n, next, parent, look, took_name(l, name), tail);
            } else if l.mode == ReaddirMode::Dirents && fileinfo::dirent_mode(r.dtype).0
                != TYPE_UNKNOWN {
                lemma_hand_out_delivers(
                    b,
                    n,
                    next,
                    parent,
                    look,
                    took_dirent(l, typed_dirent(parent, name, fileinfo::dirent_mode(r.dtype))),
                    tail,
                );
            }
        }
    }
}

/// A listing delivers the records that are left, in order, and leaves the
/// others.
proof fn lemma_listed_delivers(s: DirState, parent: Seq<u8>, look: Look, l: ListView)
    ensures
        ({
            let (s2, l2) = listed(s, parent, look, l);
            &&& l2.mode == l.mode && l2.whole == l.whole
            &&& (l2, records_left(s2, l.whole)) == deliver(l, records_left(s, l.whole), parent, look)
        }),
    decreases s.more.len(), s.filled - s.pos,
{
    let (p, l2, w) = hand_out(s.buf, s.filled, s.pos, parent, l);
    let tail = if sound_from(s.buf, s.filled, s.pos, l.whole) && s.more.len() > 0 {
        records_left(
            next_block(s),
            l.whole,
        )
    } else {
        Seq::<Record>::empty()
    };
    lemma_hand_out_delivers(s.buf, s.filled, s.pos, parent, look, l, tail);
    lemma_hand_out_moves(s.buf, s.filled, s.pos, parent, l);
    match w {
        Want::Nothing => {
            if l2.left != 0 {
                assert(records_from(s.buf, s.filled, p, l.whole) + tail =~= Seq::<Record>::empty());
            }
        },
        Want::Fill => {
            if s.more.len() == 0 {
                let s2 = DirState { filled: 0, pos: 0, ..s };
                assert(records_left(s2, l.whole) =~= Seq::<Record>::empty());
            } else {
                lemma_listed_delivers(
                    next_block(s),
                    parent,
                    look,
                    l2,
                );
            }
        },
        Want::Examine(name) => {
            lemma_listed_delivers(
                DirState { pos: p, ..s },
                parent,
                look,
                after_examine(l2, parent, name, look(name).0, look(name).1),
            );
        },
    }
}

/// The three collections of which a listing fills the one of its mode.
pub open spec fn only_mode(l: ListView) -> bool {
    &&& l.mode != ReaddirMode::Names ==> l.names.len() == 0
    &&& l.mode != ReaddirMode::Dirents ==> l.dirents.len() == 0
    &&& l.mode != ReaddirMode::Infos ==> l.infos.len() == 0
}

/// Whether a listing has delivered nothing.
pub open spec fn nothing_in(l: ListView) -> bool {
    l.names.len() == 0 && l.dirents.len() == 0 && l.infos.len() == 0
}

proof fn lemma_deliver(l: ListView, rs: Seq<Record>, parent: Seq<u8>, look: Look)
    requires
        only_mode(l),
    ensures
        ({
            let (l2, rest) = deliver(l, rs, parent, look);
            &&& only_mode(l2)
            &&& l2.mode == l.mode
            &&& delivered(l2) + entries_of(rest, l.mode, parent, look) == delivered(l)
                + entries_of(rs, l.mode, parent, look)
            &&& l.left < 0 ==> rest.len() == 0
            &&& l.left >= 0 ==> l2.left >= 0 && delivered(l2).len() + l2.left == delivered(l).len()
                + l.left
            &&& l2.left == 0 || rest.len() == 0
        }),
    decreases rs.len(),
{
    if l.left != 0 && rs.len() > 0 {
        let rest = entries_of(rs.drop_first(), l.mode, parent, look);
        match entry_of(rs[0], l.mode, parent, look) {
            Some(e) => {
                let l2 = took(l, e);
                lemma_deliver(l2, rs.drop_first(), parent, look);
                assert(delivered(l2) =~= delivered(l).push(e));
                assert(delivered(l2) + rest =~= delivered(l) + (seq![e] + rest));
            },
            None => {
                lemma_deliver(l, rs.drop_first(), parent, look);
            },
        }
    }
}

/// One listing of a directory, over as many blocks as it takes. It loses and
/// repeats nothing: what it delivers, followed by what is left, is what was
/// left before. A bounded listing delivers what was asked for, or all that was
/// left; it delivers nothing, and so ends with io.EOF, exactly if nothing was
/// left. Another listing delivers everything.
pub proof fn law_batches_lose_nothing(
    s: DirState,
    parent: Seq<u8>,
    look: Look,
    n: i64,
    mode: ReaddirMode,
    whole: bool,
)
    requires
        no_failure(look),
    ensures
        ({
            let (s2, l) = listed(s, parent, look, start_list(n, mode, whole));
            let before = entries_left(s, mode, whole, parent, look);
            let after = entries_left(s2, mode, whole, parent, look);
            &&& l.mode == mode
            &&& delivered(l) + after == before
            &&& nothing_in(l) <==> delivered(l).len() == 0
            &&& n <= 0 ==> after.len() == 0 && delivered(l) == before
            &&& n > 0 ==> {
                &&& delivered(l).len() <= n
                &&& delivered(l).len() == n || after.len() == 0
                &&& nothing_in(l) <==> before.len() == 0
            }
        }),
{
    let l0 = start_list(n, mode, whole);
    let (s2, l) = listed(s, parent, look, l0);
    lemma_listed_delivers(s, parent, look, l0);
    lemma_deliver(l0, records_left(s, whole), parent, look);
    let before = entries_left(s, mode, whole, parent, look);
    let after = entries_left(s2, mode, whole, parent, look);
    assert(delivered(l0) + before =~= before);
    if after.len() == 0 {
        assert(delivered(l) + after =~= delivered(l));
    }
}

/// All that listings of `n` entries at a time deliver, up to the first one
/// that delivers nothing.
pub open spec fn drained(
    s: DirState,
    parent: Seq<u8>,
    look: Look,
    n: i64,
    mode: ReaddirMode,
    whole: bool,
) -> Seq<Entry>
    recommends
        n > 0,
        no_failure(look),
    decreases entries_left(s, mode, whole, parent, look).len(),
    when no_failure(look)
    via drained_ends
{
    let (s2, l) = listed(s, parent, look, start_list(n, mode, whole));
    if nothing_in(l) {
        Seq::empty()
    } else {
        delivered(l) + drained(s2, parent, look, n, mode, whole)
    }
}

#[via_fn]
proof fn drained_ends(
    s: DirState,
    parent: Seq<u8>,
    look: Look,
    n: i64,
    mode: ReaddirMode,
    whole: bool,
) {
    law_batches_lose_nothing(s, parent, look, n, mode, whole);
}

/// The batches of bounded listings, up to the one that ends with io.EOF, make
/// up what a single unbounded listing delivers.
pub proof fn law_batches_make_the_listing(
    s: DirState,
    parent: Seq<u8>,
    look: Look,
    n: i64,
    mode: ReaddirMode,
    whole: bool,
)
    requires
        n > 0,
        no_failure(look),
    ensures
        drained(s, parent, look, n, mode, whole) == delivered(
            listed(s, parent, look, start_list(0, mode, whole)).1,
        ),
    decreases entries_left(s, mode, whole, parent, look).len(),
{
    law_batches_lose_nothing(s, parent, look, 0, mode, whole);
    law_batches_lose_nothing(s, parent, look, n, mode, whole);
    let (s2, l) = listed(s, parent, look, start_list(n, mode, whole));
    if !nothing_in(l) {
        law_batches_make_the_listing(s2, parent, look, n, mode, whole);
        law_batches_lose_nothing(s2, parent, look, 0, mode, whole);
    } else {
        assert(drained(s, parent, look, n, mode, whole) =~= entries_left(s, mode, whole, parent, look));
    }
}

// ---- a whole directory ----

/// Opens a directory for `dir_opened`.
pub fn ReadDir(t: Target, name: &Vec<u8>) -> (r: (Call, OpenOp))
    ensures
        os::opens(r.0, t, name@, O_RDONLY, FileMode(0)),
        r.1.name@ == name@,
{
    Open(t, name)
}

/// The listing of a freshly opened directory: all of its entries, read in
/// blocks of four kibibytes.
pub fn dir_opened(f: &mut File) -> (r: Listing)
    requires
        old(f).fd >= 0,
        old(f).dirinfo is None,
    ensures
        final(f).dir_wf(),
        final(f).fd == old(f).fd,
        final(f).name == old(f).name,
        r@ == start_list(0, ReaddirMode::Dirents, true),
        r.n == 0,
        r.pending is None,
        final(f).dirinfo->0.buf@ == blank(4096),
        final(f).dirinfo->0.nbuf == 0,
        final(f).dirinfo->0.bufp == 0,
{
    f.dirinfo = Some(DirInfo { buf: blank_buffer(4096), nbuf: 0, bufp: 0 });
    let l = Listing {
        n: 0,
        left: -1,
        mode: ReaddirMode::Dirents,
        whole: true,
        names: Vec::new(),
        dirents: Vec::new(),
        infos: Vec::new(),
        pending: None,
    };
    assert(l@ =~= start_list(0, ReaddirMode::Dirents, true));
    l
}

pub open spec fn entry_keys(s: Seq<DirentView>, keys: Seq<Name>) -> bool {
    keys.len() == s.len() && forall|i: int|
        0 <= i < s.len() ==> (#[trigger] keys[i]).bytes@ == s[i].name
}

/// `sorted` is the stable sort of `raw` by name.
pub open spec fn is_name_sort(raw: Seq<DirentView>, sorted: Seq<DirentView>) -> bool {
    exists|p: Seq<usize>, keys: Seq<Name>|
        #[trigger] sort::is_stable_order(p, keys) && entry_keys(raw, keys) && sorted == sort::permuted(raw, p)
}

/// Sorting by name keeps every entry, and no entry's name is above that of a
/// later one.
pub proof fn law_name_sort(raw: Seq<DirentView>, sorted: Seq<DirentView>)
    requires
        is_name_sort(raw, sorted),
        raw.len() <= usize::MAX,
    ensures
        sorted.len() == raw.len(),
        forall|i: int, j: int|
            0 <= i < j < sorted.len() ==> !gostr::bytes_lt(
                (#[trigger] sorted[j]).name,
                (#[trigger] sorted[i]).name,
            ),
        forall|d: DirentView| raw.contains(d) <==> sorted.contains(d),
{
    let (p, keys) = choose|p: Seq<usize>, keys: Seq<Name>|
        #[trigger] sort::is_stable_order(p, keys) && entry_keys(raw, keys) && sorted == sort::permuted(raw, p);
    sort::lemma_order_is_permutation(p, keys);
    assert forall|i: int, j: int| 0 <= i < j < sorted.len() implies !gostr::bytes_lt(
        (#[trigger] sorted[j]).name,
        (#[trigger] sorted[i]).name,
    ) by {
        assert(sort::before(keys, p[i], p[j]));
        let a = keys[p[i] as int];
        let b = keys[p[j] as int];
        gostr::lemma_bytes_lt(a.bytes@, b.bytes@, a.bytes@);
    }
    assert forall|d: DirentView| raw.contains(d) implies sorted.contains(d) by {
        let k = choose|k: int| 0 <= k < raw.len() && raw[k] == d;
        assert(p.contains(k as usize));
        let i = choose|i: int| 0 <= i < p.len() && p[i] == k as usize;
        assert(sorted[i] == d);
    }
    assert forall|d: DirentView| sorted.contains(d) implies raw.contains(d) by {
        let i = choose|i: int| 0 <= i < sorted.len() && sorted[i] == d;
        assert(p[i] < raw.len());
        assert(raw[p[i] as int] == d);
    }
}

/// The entries of a directory: sorted by name, unless an error cut the listing
/// short.
pub fn dir_entries(run: &Listing, failed: bool) -> (r: Vec<UnixDirent>)
    ensures
        if failed {
            dirent_views(r@) == run@.dirents
        } else {
            is_name_sort(run@.dirents, dirent_views(r@))
        },
{
    let entries = &run.dirents;
    let mut keys: Vec<Name> = Vec::new();
    let mut out: Vec<UnixDirent> = Vec::new();
    let mut i: usize = 0;
    while i < entries.len()
        invariant
            i <= entries.len(),
            entries@ == run.dirents@,
            keys.len() == i,
            out.len() == i,
            forall|k: int| 0 <= k < i ==> (#[trigger] keys@[k]).bytes@ == entries@[k].name@,
            forall|k: int| 0 <= k < i ==> (#[trigger] out@[k])@ == entries@[k]@,
        decreases entries.len() - i,
    {
        keys.push(Name { bytes: copy_bytes(entries[i].name.as_slice()) });
        out.push(entries[i].copy());
        i = i + 1;
    }
    if failed {
        assert(dirent_views(out@) =~= run@.dirents);
        return out;
    }
    let p = stable_order(&keys);
    let mut sorted: Vec<UnixDirent> = Vec::new();
    let mut j: usize = 0;
    while j < p.len()
        invariant
            sort::is_stable_order(p@, keys@),
            keys.len() == entries.len(),
            j <= p.len(),
            sorted.len() == j,
            forall|k: int| 0 <= k < j ==> (#[trigger] sorted@[k])@ == entries@[p@[k] as int]@,
        decreases p.len() - j,
    {
        assert(p[j as int] < keys.len());
        sorted.push(entries[p[j]].copy());
        j = j + 1;
    }
    proof {
        assert(entry_keys(run@.dirents, keys@));
        assert(dirent_views(sorted@) =~= sort::permuted(run@.dirents, p@)) by {
            assert forall|k: int| 0 <= k < p@.len() implies dirent_views(sorted@)[k]
                == #[trigger] sort::permuted(run@.dirents, p@)[k] by {
                assert(p@[k] < keys@.len());
            }
        }
    }
    sorted
}

// ---- what the kernel's records say ----

/// A record as the kernel lays it out: sixteen bytes that are not looked at,
/// the length of the record in two bytes, the low one first, the type, the
/// name with a NUL behind it, and bytes that fill it up.
pub struct Laid {
    pub head: Seq<u8>,
    pub dtype: u8,
    pub name: Seq<u8>,
    pub fill: Seq<u8>,
}

impl Laid {
    pub open spec fn len(self) -> int {
        20 + self.name.len() as int + self.fill.len() as int
    }

    pub open spec fn wf(self) -> bool {
        &&& self.head.len() == 16
        &&& self.len() < 65536
        &&& forall|i: int| 0 <= i < self.name.len() ==> #[trigger] self.name[i] != 0
    }

    pub open spec fn bytes(self) -> Seq<u8> {
        self.head + seq![(self.len() % 256) as u8, (self.len() / 256) as u8, self.dtype] + self.name
            + seq![0u8] + self.fill
    }
}

/// A record is read as it was laid out, wherever it stands: its whole name, its
/// type, and where the next one starts.
pub proof fn law_record_is_read(b: Seq<u8>, n: int, pos: int, e: Laid, whole: bool)
    requires
        e.wf(),
        0 <= pos,
        pos + e.len() <= n <= b.len(),
        b.subrange(pos, pos + e.len()) == e.bytes(),
    ensures
        rec_fits(b, n, pos, whole),
        rec_len(b, pos) == e.len(),
        rec_name(b, pos) == e.name,
        b[pos + 18] == e.dtype,
        rec_next(b, n, pos) == pos + e.len(),
{
    let r = e.bytes();
    let l = e.len();
    assert forall|i: int| 0 <= i < l implies #[trigger] b[pos + i] == r[i] by {
        assert(b.subrange(pos, pos + l)[i] == b[pos + i]);
    }
    assert(b[pos + 16] == r[16] && b[pos + 17] == r[17] && b[pos + 18] == r[18]);
    reveal_with_fuel(crate::dwarf_util::le_value, 3);
    assert(rec_len(b, pos) == l % 256 + 256 * (l / 256));
    let s = b.subrange(pos + 19, pos + l);
    let k = e.name.len() as int;
    assert forall|i: int| 0 <= i < k implies #[trigger] s[i] != 0 by {
        assert(s[i] == b[pos + (19 + i)]);
        assert(r[19 + i] == e.name[i]);
    }
    assert(s[k] == b[pos + (19 + k)]);
    assert(r[19 + k] == 0);
    gostr::lemma_until_nul(s, k);
    assert(s.subrange(0, k) =~= e.name) by {
        assert forall|i: int| 0 <= i < k implies s.subrange(0, k)[i] == e.name[i] by {
            assert(s[i] == b[pos + (19 + i)]);
            assert(r[19 + i] == e.name[i]);
        }
    }
}

/// Records laid out one behind the other.
pub open spec fn laid_out(es: Seq<Laid>) -> Seq<u8>
    decreases es.len(),
{
    if es.len() == 0 {
        Seq::empty()
    } else {
        es[0].bytes() + laid_out(es.drop_first())
    }
}

/// The records without those of the directory itself and of its parent.
pub open spec fn without_dots(es: Seq<Laid>) -> Seq<Record>
    decreases es.len(),
{
    if es.len() == 0 {
        Seq::empty()
    } else if es[0].name == seq!['.' as u8] || es[0].name == seq!['.' as u8, '.' as u8] {
        without_dots(es.drop_first())
    } else {
        seq![Record { name: es[0].name, dtype: es[0].dtype }] + without_dots(es.drop_first())
    }
}

/// A block of records gives all of them but the two dots, each with its whole
/// name, in their order, and every byte of the block is used.
pub proof fn law_block_gives_its_records(
    b: Seq<u8>,
    n: int,
    pos: int,
    es: Seq<Laid>,
    whole: bool,
)
    requires
        0 <= pos,
        n == pos + laid_out(es).len(),
        n <= b.len(),
        b.subrange(pos, n) == laid_out(es),
        forall|i: int| 0 <= i < es.len() ==> (#[trigger] es[i]).wf(),
    ensures
        records_from(b, n, pos, whole) == without_dots(es),
        sound_from(b, n, pos, whole),
    decreases es.len(),
{
    if es.len() > 0 {
        let e = es[0];
        let rest = es.drop_first();
        let next = pos + e.len();
        assert(e.bytes().len() == e.len());
        assert(b.subrange(pos, next) =~= e.bytes()) by {
            assert forall|i: int| 0 <= i < e.len() implies b.subrange(pos, next)[i]
                == e.bytes()[i] by {
                assert(b.subrange(pos, n)[i] == laid_out(es)[i]);
            }
        }
        law_record_is_read(b, n, pos, e, whole);
        assert(b.subrange(next, n) =~= laid_out(rest)) by {
            assert forall|i: int| 0 <= i < n - next implies b.subrange(next, n)[i]
                == laid_out(rest)[i] by {
                assert(b.subrange(pos, n)[e.len() + i] == laid_out(es)[e.len() + i]);
            }
        }
        assert forall|i: int| 0 <= i < rest.len() implies (#[trigger] rest[i]).wf() by {
            assert(rest[i] == es[i + 1]);
        }
        law_block_gives_its_records(b, n, next, rest, whole);
    }
}

/// Listing the names of a directory whose records come in one block gives the
/// names, in their order and without the two dots.
pub proof fn law_names_are_listed(
    buf: Seq<u8>,
    es: Seq<Laid>,
    parent: Seq<u8>,
    look: Look,
    whole: bool,
)
    requires
        laid_out(es).len() <= buf.len(),
        forall|i: int| 0 <= i < es.len() ==> (#[trigger] es[i]).wf(),
        no_failure(look),
    ensures
        ({
            let s = DirState { buf, filled: 0, pos: 0, more: seq![laid_out(es)] };
            let l = listed(s, parent, look, start_list(0, ReaddirMode::Names, whole)).1;
            l.names == Seq::new(without_dots(es).len(), |i: int| without_dots(es)[i].name)
        }),
{
    let block = laid_out(es);
    let s = DirState { buf, filled: 0, pos: 0, more: seq![block] };
    let l = listed(s, parent, look, start_list(0, ReaddirMode::Names, whole)).1;
    let s1 = next_block(s);
    assert(s1.buf.subrange(0, block.len() as int) =~= block);
    law_block_gives_its_records(s1.buf, s1.filled, 0, es, whole);
    let rs = without_dots(es);
    assert(s1.more.len() == 0);
    assert(records_left(s1, whole) =~= rs);
    assert(records_from(s.buf, 0, 0, whole) =~= Seq::<Record>::empty());
    assert(records_left(s, whole) =~= rs);
    law_batches_lose_nothing(s, parent, look, 0, ReaddirMode::Names, whole);
    lemma_names_of(rs, parent, look);
    let want = Seq::new(rs.len(), |i: int| rs[i].name);
    assert(delivered(l).len() == l.names.len());
    assert forall|i: int| 0 <= i < rs.len() implies l.names[i] == want[i] by {
        assert(delivered(l)[i] == Entry::Name(l.names[i]));
        assert(entries_of(rs, ReaddirMode::Names, parent, look)[i] == Entry::Name(rs[i].name));
    }
    assert(l.names =~= want);
}

proof fn lemma_names_of(rs: Seq<Record>, parent: Seq<u8>, look: Look)
    ensures
        entries_of(rs, ReaddirMode::Names, parent, look) == Seq::new(
            rs.len(),
            |i: int| Entry::Name(rs[i].name),
        ),
    decreases rs.len(),
{
    let out = entries_of(rs, ReaddirMode::Names, parent, look);
    if rs.len() > 0 {
        lemma_names_of(rs.drop_first(), parent, look);
    }
    assert(out =~= Seq::new(rs.len(), |i: int| Entry::Name(rs[i].name)));
}

/// What a record gives otherwise: an entry of its own type where the kernel
/// gave one, with the directory as its parent; else, and for infos always, what
/// examining the file `parent/name` said, and nothing if the file is gone.
pub proof fn law_entry_is_of_its_file(r: Record, parent: Seq<u8>, look: Look)
    requires
        no_failure(look),
    ensures
        ({
            let known = r.dtype == 1 || r.dtype == 2 || r.dtype == 4 || r.dtype == 6 || r.dtype == 8
                || r.dtype == 10 || r.dtype == 12;
            let st = look(r.name).1;
            let gone = look(r.name).0 < 0;
            &&& known ==> (entry_of(r, ReaddirMode::Dirents, parent, look) matches Some(
                Entry::Dirent(d),
            ) && d.parent == parent && d.name == r.name && d.info is None && (d.typ.0 & 0x8000_0000
                != 0) == (r.dtype == 4))
            &&& !known ==> (entry_of(r, ReaddirMode::Dirents, parent, look) is None <==> gone)
            &&& !known && !gone ==> (entry_of(r, ReaddirMode::Dirents, parent, look) matches Some(
                Entry::Dirent(d),
            ) && d.parent == parent && d.name == r.name && d.info is Some && d.info->0.size
                == st.st_size && d.info->0.sys == Some(st))
            &&& entry_of(r, ReaddirMode::Infos, parent, look) is None <==> gone
            &&& !gone ==> (entry_of(r, ReaddirMode::Infos, parent, look) matches Some(
                Entry::Info(i),
            ) && i.size == st.st_size && i.sys == Some(st))
        }),
{
    assert(0x8000_0000u32 & 0x8000_0000u32 != 0 && 0u32 & 0x8000_0000u32 == 0 && 0x0400_0000u32
        & 0x8000_0000u32 == 0 && (0x0400_0000u32 | 0x0020_0000u32) & 0x8000_0000u32 == 0
        && 0x0200_0000u32 & 0x8000_0000u32 == 0 && 0x0800_0000u32 & 0x8000_0000u32 == 0
        && 0x0100_0000u32 & 0x8000_0000u32 == 0) by (bit_vector);
    assert((0x0400_0000u32 | 0x0020_0000u32) != 0xffff_ffffu32) by (bit_vector);
}

/// The path of a file in a directory: the directory, a slash, the name.
pub proof fn law_child_is_below(parent: Seq<u8>, name: Seq<u8>)
    ensures
        child_path(parent, name).len() == parent.len() + 1 + name.len(),
        child_path(parent, name).subrange(0, parent.len() as int) == parent,
        child_path(parent, name)[parent.len() as int] == '/' as u8,
        child_path(parent, name).subrange(
            parent.len() as int + 1,
            parent.len() as int + 1 + name.len() as int,
        ) == name,
{
    reveal_strlit("/");
    gostr::lemma_plain_text("/");
    let p = child_path(parent, name);
    assert(p.subrange(0, parent.len() as int) =~= parent);
    assert(p.subrange(parent.len() as int + 1, parent.len() as int + 1 + name.len() as int) =~= name);
}

/// Records give their entries one after the other.
pub proof fn law_entries_follow_their_records(
    a: Seq<Record>,
    b: Seq<Record>,
    mode: ReaddirMode,
    parent: Seq<u8>,
    look: Look,
)
    ensures
        entries_of(a + b, mode, parent, look) == entries_of(a, mode, parent, look) + entries_of(
            b,
            mode,
            parent,
            look,
        ),
        a.len() == 1 ==> entries_of(a, mode, parent, look) == (match entry_of(a[0], mode, parent, look) {
            Some(e) => seq![e],
            None => Seq::empty(),
        }),
    decreases a.len(),
{
    let tail = entries_of(b, mode, parent, look);
    if a.len() == 0 {
        assert(a + b =~= b);
        assert(entries_of(a, mode, parent, look) + tail =~= tail);
    } else {
        let rest = a.drop_first();
        law_entries_follow_their_records(rest, b, mode, parent, look);
        assert((a + b).drop_first() =~= rest + b);
        let more = entries_of(rest, mode, parent, look);
        if let Some(e) = entry_of(a[0], mode, parent, look) {
            assert(seq![e] + (more + tail) =~= (seq![e] + more) + tail);
            if a.len() == 1 {
                assert(seq![e] + more =~= seq![e]);
            }
        }
    }
}

/// A block of the kernel stands at the start of the buffer, and what is behind
/// it is what was there before.
pub proof fn law_block_is_put_into_the_buffer(buf: Seq<u8>, block: Seq<u8>)
    requires
        block.len() <= buf.len(),
    ensures
        overlaid(buf, block).len() == buf.len(),
        overlaid(buf, block).subrange(0, block.len() as int) == block,
        overlaid(buf, block).subrange(block.len() as int, buf.len() as int) == buf.subrange(
            block.len() as int,
            buf.len() as int,
        ),
{
    let o = overlaid(buf, block);
    assert(o.subrange(0, block.len() as int) =~= block);
    assert(o.subrange(block.len() as int, buf.len() as int) =~= buf.subrange(
        block.len() as int,
        buf.len() as int,
    ));
}

/// A file that is gone (error 2) does not end a listing; another refusal does,
/// and is reported with the file's path.
pub proof fn law_gone_file_does_not_end_the_listing(parent: Seq<u8>, name: Seq<u8>, rc: i64)
    requires
        errors::valid_rc(rc),
    ensures
        rc >= 0 || rc == -2 ==> examine_answer(parent, name, rc) == (true, None::<ErrorView>),
        rc < 0 && rc != -2 ==> examine_answer(parent, name, rc) == (
            false,
            Some(
                ErrorView::Path {
                    op: gostr::lit("lstat"),
                    path: child_path(parent, name),
                    err: CauseView::Errno((-rc) as i32),
                },
            ),
        ),
{
}

/// A bounded listing that found nothing ends with the end of the directory, and
/// an unbounded one without an error; what stopped a listing is reported.
pub proof fn law_listing_ends(n: i64, l: ListView, err: ErrorView)
    ensures
        end_answer(n, l, Some(err)) == Some(err),
        n <= 0 ==> end_answer(n, l, None) is None,
        delivered(l).len() > 0 ==> end_answer(n, l, None) is None,
        n > 0 && l.names.len() == 0 && l.dirents.len() == 0 && l.infos.len() == 0 ==> end_answer(
            n,
            l,
            None,
        ) == Some(ErrorView::Eof),
{
}

/// A block that the kernel gave is read from its start; when it gave none the
/// listing ends, with the kernel's error if there was one.
pub proof fn law_block_is_read_from_its_start(
    f: File,
    g: File,
    block: Seq<u8>,
    rest: Seq<u8>,
    rc: i64,
    r: (bool, Option<Error>),
)
    requires
        f.dirinfo is Some,
        g.dirinfo is Some,
        f.fd >= 0,
        filled(f, g, rc, block + rest, r),
        rc <= f.dirinfo->0.buf@.len(),
    ensures
        rc > 0 && rc == block.len() ==> r.0 && r.1 is None && g.dirinfo->0.nbuf == block.len()
            && g.dirinfo->0.buf@.subrange(0, block.len() as int) == block,
        rc == 0 ==> !r.0 && r.1 is None && g.dirinfo->0.nbuf == 0,
        rc < 0 ==> !r.0 && g.dirinfo->0.nbuf == 0 && errors::err_view(r.1) == Some(
            ErrorView::Path {
                op: gostr::lit("readdirent"),
                path: f.name@,
                err: CauseView::Errno((-rc) as i32),
            },
        ),
{
    if rc > 0 && rc == block.len() {
        assert((block + rest).subrange(0, rc as int) =~= block);
        law_block_is_put_into_the_buffer(f.dirinfo->0.buf@, block);
    }
}

/// A record whose fields do not lie in the buffer ends a listing, and so does
/// one of no length or one that runs past what was filled, unless that does not
/// matter; such a one is otherwise the last of its block.
pub proof fn law_broken_record_ends_the_listing(
    b: Seq<u8>,
    n: int,
    pos: int,
    parent: Seq<u8>,
    l: ListView,
)
    requires
        0 <= pos < n,
        l.left != 0,
    ensures
        pos + 19 > b.len() ==> hand_out(b, n, pos, parent, l) == (pos, l, Want::Nothing),
        !l.whole && (rec_len(b, pos) == 0 || pos + rec_len(b, pos) > n) ==> hand_out(
            b,
            n,
            pos,
            parent,
            l,
        ) == (pos, l, Want::Nothing),
        l.whole && pos + 19 <= b.len() && (rec_len(b, pos) == 0 || pos + rec_len(b, pos) > n)
            ==> rec_fits(b, n, pos, true) && rec_next(b, n, pos) == n,
{
}

/// A name ends at its first NUL, and where it has none with its record; a
/// record too short for a name has an empty one, and one that runs past the
/// buffer a name that ends there.
pub proof fn law_name_without_a_nul(b: Seq<u8>, pos: int, end: int)
    requires
        0 <= pos,
        pos + 19 <= end <= b.len(),
        forall|i: int| pos + 19 <= i < end ==> #[trigger] b[i] != 0,
    ensures
        rec_len(b, pos) == end - pos ==> rec_name(b, pos) == b.subrange(pos + 19, end),
        end == b.len() && rec_len(b, pos) >= end - pos ==> rec_name(b, pos) == b.subrange(pos + 19, end),
        end < b.len() && b[end] == 0 && pos + rec_len(b, pos) > end ==> rec_name(b, pos) == b.subrange(
            pos + 19,
            end,
        ),
        rec_len(b, pos) < 19 ==> rec_name(b, pos).len() == 0,
{
    let name = b.subrange(pos + 19, end);
    assert forall|i: int| 0 <= i < name.len() implies #[trigger] name[i] != 0 by {
        assert(name[i] == b[pos + 19 + i]);
    }
    gostr::law_cut_at_the_first_nul(name, Seq::empty());
    if end < b.len() && b[end] == 0 && pos + rec_len(b, pos) > end {
        let stop = if pos + rec_len(b, pos) > b.len() {
            b.len() as int
        } else {
            pos + rec_len(b, pos)
        };
        let rest = b.subrange(end + 1, stop);
        assert(b.subrange(pos + 19, stop) =~= name + seq![0u8] + rest);
        gostr::law_cut_at_the_first_nul(name, rest);
    }
    if rec_len(b, pos) < 19 {
        let none = b.subrange(pos + 19, pos + 19);
        gostr::law_cut_at_the_first_nul(none, Seq::empty());
    }
}

} // verus!
