//! Reading and writing whole files.

use vstd::prelude::*;

use crate::errors::Error;
use crate::file::{File, TransferStep};
use crate::fileinfo::FileMode;
use crate::gostr::append;
use crate::os::{Open, OpenFile, OpenOp};
use crate::syscall::{Call, Stat_t, Target, O_RDONLY, O_WRONLY};
use crate::{dwarf_util, errors, file, gostr, os, syscall};

verus! {

/// The least that a read asks for.
pub const MIN_READ: usize = 512;

/// A file that is being read whole.
pub struct Slurp {
    pub file: File,
    pub data: Vec<u8>,
    /// How large `data` may grow before more room is made.
    pub cap: usize,
    /// The file claimed to be empty, as files of the kernel do.
    pub zero_size: bool,
}

pub enum SlurpStep {
    More(Slurp),
    /// The data, what stopped the reading, and the file, still to be closed.
    Done(Vec<u8>, Option<Error>, File),
}

/// Opens a file for `slurp`.
pub fn ReadFile(t: Target, name: &Vec<u8>) -> (r: (Call, OpenOp))
    ensures
        os::opens(r.0, t, name@, O_RDONLY, FileMode(0)),
        r.1.name@ == name@,
{
    Open(t, name)
}

/// One byte more than the file's size, so that its end is seen, and no less
/// than the least read.
pub open spec fn first_room(size: int) -> int {
    if size + 1 < MIN_READ {
        MIN_READ as int
    } else if size >= usize::MAX {
        usize::MAX as int
    } else {
        size + 1
    }
}

/// Starts reading an open file; `rc` and `st` are the answer to examining it.
pub fn slurp(file: File, rc: i64, st: &Stat_t) -> (r: Slurp)
    requires
        rc >= 0 ==> st.st_size >= 0,
    ensures
        r.file == file,
        r.data@ == Seq::<u8>::empty(),
        r.cap == first_room(if rc < 0 {
            0
        } else {
            st.st_size as int
        }),
        r.zero_size == (rc < 0 || st.st_size == 0),
        r.wf(),
{
    let stat_size: i64 = if rc < 0 {
        0
    } else {
        st.st_size
    };
    let mut cap: usize = if stat_size as u64 >= usize::MAX as u64 {
        usize::MAX
    } else {
        stat_size as usize + 1
    };
    if cap < MIN_READ {
        cap = MIN_READ;
    }
    let data: Vec<u8> = Vec::new();
    assert(data@ =~= Seq::empty());
    Slurp { file, data, cap, zero_size: stat_size == 0 }
}

/// What follows a read that gave `rc` bytes, those at the start of `chunk`, or
/// failed. Everything read is kept, in order; the end of the file ends the
/// reading without an error. More room is made when none is left, and for a
/// file that claimed to be empty when little is.
pub open spec fn after_read(s: Slurp, rc: i64, chunk: Seq<u8>, r: SlurpStep) -> bool {
    if rc > 0 {
        &&& r matches SlurpStep::More(next) && next.data@ == s.data@ + chunk.subrange(0, rc as int)
            && next.file == s.file && next.zero_size == s.zero_size && next.wf() && ({
            let left = s.cap - next.data@.len();
            if left == 0 || (s.zero_size && left < MIN_READ) {
                next.cap > s.cap && (next.cap - next.data@.len() >= MIN_READ || next.cap
                    == usize::MAX)
            } else {
                next.cap == s.cap
            }
        })
    } else {
        &&& r matches SlurpStep::Done(d, e, f) && d@ == s.data@ && f == s.file && errors::err_view(
            e,
        ) == (if rc < 0 {
            Some(file::file_error(gostr::lit("read"), s.file.name@, s.file.fd, rc))
        } else {
            None
        })
    }
}

impl Slurp {
    /// There is room to read into.
    pub open spec fn wf(&self) -> bool {
        self.data@.len() < self.cap
    }

    /// The next read fills the room that is left.
    pub fn next(&self) -> (r: Call)
        requires
            self.wf(),
        ensures
            r == (Call::Read {
                fd: self.file.fd,
                len: (self.cap - self.data@.len()) as usize,
            }),
    {
        Call::Read { fd: self.file.fd, len: self.cap - self.data.len() }
    }

    /// Takes the answer to a read.
    pub fn got(self, rc: i64, chunk: &[u8]) -> (r: SlurpStep)
        requires
            self.wf(),
            errors::valid_rc(rc),
            rc <= chunk@.len(),
            self.data@.len() + rc <= self.cap,
            self.cap < usize::MAX,
        ensures
            after_read(self, rc, chunk@, r),
    {
        if rc < 0 {
            let e = self.file.fdErr("read", rc);
            return SlurpStep::Done(self.data, Some(e), self.file);
        }
        if rc == 0 {
            return SlurpStep::Done(self.data, None, self.file);
        }
        let n: usize = rc as usize;
        let piece = dwarf_util::copy_range(chunk, 0, n);
        let mut data = self.data;
        append(&mut data, piece.as_slice());
        let mut cap: usize = self.cap;
        let left: usize = cap - data.len();
        if left == 0 || (self.zero_size && left < MIN_READ) {
            let twice: usize = if cap > usize::MAX / 2 {
                usize::MAX
            } else {
                2 * cap
            };
            let more: usize = if data.len() > usize::MAX - MIN_READ {
                usize::MAX
            } else {
                data.len() + MIN_READ
            };
            cap = if twice > more {
                twice
            } else {
                more
            };
        }
        SlurpStep::More(Slurp { file: self.file, data, cap, zero_size: self.zero_size })
    }
}

/// Makes or empties a file for writing, for `File::Write` and a close.
pub fn WriteFile(t: Target, name: &Vec<u8>, perm: FileMode) -> (r: (Call, OpenOp))
    ensures
        os::opens(r.0, t, name@, os::making(t, O_WRONLY), perm),
        r.1.name@ == name@,
{
    let n = t.numbers();
    OpenFile(t, name, O_WRONLY | n.o_create | n.o_trunc, perm)
}

/// The outcome of writing a whole file: the error of the write, or else that
/// of the close.
pub fn write_file_result(write_err: Option<Error>, close_err: Option<Error>) -> (r: Option<Error>)
    ensures
        r == (if write_err is Some {
            write_err
        } else {
            close_err
        }),
{
    if write_err.is_some() {
        write_err
    } else {
        close_err
    }
}

// ---- what is written is read back ----

/// What a file holds after it was opened: nothing if it was to be emptied.
pub open spec fn held_when_opened(t: Target, before: Seq<u8>, flags: i64) -> Seq<u8> {
    if flags & syscall::numbers_of(t).o_trunc != 0 {
        Seq::empty()
    } else {
        before
    }
}

/// What a file holds after a call at its end to write `data` from `start` on,
/// of which the kernel took `rc` bytes.
pub open spec fn held_after_write(held: Seq<u8>, data: Seq<u8>, start: int, rc: i64) -> Seq<u8> {
    if rc > 0 {
        held + data.subrange(start, start + rc)
    } else {
        held
    }
}

/// A write as it went: its steps, the kernel's replies between them, and what
/// the file held at each step.
pub struct WriteRun {
    pub steps: Seq<TransferStep>,
    pub replies: Seq<i64>,
    pub held: Seq<Seq<u8>>,
}

impl WriteRun {
    /// The run of `File::Write` on a file that nobody else changes, from its
    /// start to an end without an error. The kernel takes no more than it was
    /// given.
    pub open spec fn succeeds(&self, name: Seq<u8>, fd: i32, data: Seq<u8>, held: Seq<u8>) -> bool {
        let k = self.replies.len() as int;
        &&& self.steps.len() == k + 1
        &&& self.held.len() == k + 1
        &&& self.held[0] == held
        &&& file::transfer_goes_on(
            self.steps[0],
            gostr::lit("write"),
            name,
            fd,
            data.len() as int,
            0,
            None,
        )
        &&& forall|i: int| 0 <= i < k ==> #[trigger] self.goes_on(data, i)
        &&& self.steps[k] matches TransferStep::Done(_, e) && e is None
    }

    /// Step `i` makes a call, and step `i + 1` follows from the reply.
    pub open spec fn goes_on(&self, data: Seq<u8>, i: int) -> bool {
        let rc = self.replies[i];
        &&& self.steps[i] matches TransferStep::Call(c, t) && c matches Call::Write {
            fd,
            start,
            len,
        } && rc <= len && file::after_write(t, rc, self.steps[i + 1]) && self.held[i + 1]
            == held_after_write(self.held[i], data, start as int, rc)
    }
}

proof fn lemma_written_so_far(
    run: WriteRun,
    name: Seq<u8>,
    fd: i32,
    data: Seq<u8>,
    held: Seq<u8>,
    i: int,
    n: int,
)
    requires
        run.succeeds(name, fd, data, held),
        0 <= i <= run.replies.len(),
        0 <= n <= data.len() <= i64::MAX,
        file::transfer_goes_on(
            run.steps[i],
            gostr::lit("write"),
            name,
            fd,
            data.len() as int,
            n,
            None,
        ),
        run.held[i] == held + data.subrange(0, n),
    ensures
        run.held[run.replies.len() as int] == held + data,
        run.steps[run.replies.len() as int] matches TransferStep::Done(k, _) && k == data.len(),
    decreases run.replies.len() - i,
{
    if i == run.replies.len() {
        assert(data.subrange(0, n) =~= data);
    } else {
        assert(run.goes_on(data, i));
        let rc = run.replies[i];
        if rc > 0 {
            assert(held + data.subrange(0, n) + data.subrange(n, n + rc) =~= held + data.subrange(
                0,
                n + rc,
            ));
            lemma_written_so_far(run, name, fd, data, held, i + 1, n + rc);
        } else {
            if i + 1 < run.replies.len() {
                assert(run.goes_on(data, i + 1));
            }
        }
    }
}

/// A whole file being read, as it went: the states before each read, the
/// kernel's replies, and what it put into the buffer.
pub struct ReadRun {
    pub states: Seq<Slurp>,
    pub replies: Seq<i64>,
    pub chunks: Seq<Seq<u8>>,
}

/// How far the first `i` replies have moved the kernel's position.
pub open spec fn moved(replies: Seq<i64>, i: nat) -> int
    decreases i,
{
    if i == 0 {
        0
    } else {
        moved(replies, (i - 1) as nat) + replies[i - 1]
    }
}

impl ReadRun {
    /// The run of reads after `slurp` on a regular file that holds `held` and
    /// that nobody changes, up to the end `last`.
    pub open spec fn succeeds(&self, held: Seq<u8>, last: SlurpStep) -> bool {
        let k = self.states.len() as int;
        &&& k > 0
        &&& self.replies.len() == k
        &&& self.chunks.len() == k
        &&& self.states[0].data@.len() == 0
        &&& forall|i: int| 0 <= i < k ==> #[trigger] self.is_served(held, i)
        &&& forall|i: int|
            0 <= i < k - 1 ==> after_read(
                #[trigger] self.states[i],
                self.replies[i],
                self.chunks[i],
                SlurpStep::More(self.states[i + 1]),
            )
        &&& after_read(self.states[k - 1], self.replies[k - 1], self.chunks[k - 1], last)
        &&& last matches SlurpStep::Done(_, e, _) && e is None
    }

    /// The kernel gives what the file holds at the position, and nothing only
    /// at the end.
    pub open spec fn is_served(&self, held: Seq<u8>, i: int) -> bool {
        let at = moved(self.replies, i as nat);
        let rc = self.replies[i];
        &&& rc >= 0
        &&& at + rc <= held.len()
        &&& rc == 0 ==> at == held.len()
        &&& rc <= self.chunks[i].len()
        &&& self.chunks[i].subrange(0, rc as int) == held.subrange(at, at + rc)
    }
}

proof fn lemma_read_so_far(run: ReadRun, held: Seq<u8>, last: SlurpStep, i: int)
    requires
        run.succeeds(held, last),
        0 <= i < run.states.len(),
    ensures
        0 <= moved(run.replies, i as nat) <= held.len(),
        run.states[i].data@ == held.subrange(0, moved(run.replies, i as nat)),
    decreases i,
{
    if i == 0 {
        assert(run.states[0].data@ =~= held.subrange(0, 0));
    } else {
        lemma_read_so_far(run, held, last, i - 1);
        assert(run.is_served(held, i - 1));
        let at = moved(run.replies, (i - 1) as nat);
        let rc = run.replies[i - 1];
        assert(after_read(
            run.states[i - 1],
            rc,
            run.chunks[i - 1],
            SlurpStep::More(run.states[i]),
        ));
        assert(held.subrange(0, at) + held.subrange(at, at + rc) =~= held.subrange(0, at + rc));
    }
}

/// A write that succeeds leaves the data in the file, and only the data where
/// the file was emptied: nothing of what it held before is left. Reading the
/// file whole then gives the data back.
pub proof fn law_file_is_read_back(
    t: Target,
    before: Seq<u8>,
    data: Seq<u8>,
    name: Seq<u8>,
    fd: i32,
    writing: WriteRun,
    reading: ReadRun,
    last: SlurpStep,
)
    requires
        data.len() <= i64::MAX,
        writing.succeeds(
            name,
            fd,
            data,
            held_when_opened(t, before, os::making(t, O_WRONLY)),
        ),
        reading.succeeds(writing.held[writing.replies.len() as int], last),
    ensures
        writing.held[writing.replies.len() as int] == data,
        last matches SlurpStep::Done(d, e, _) && d@ == data && e is None,
{
    let none = held_when_opened(t, before, os::making(t, O_WRONLY));
    let w = O_WRONLY;
    let c = syscall::numbers_of(t).o_create;
    let e = syscall::numbers_of(t).o_trunc;
    assert((w | c | e) & e != 0) by (bit_vector)
        requires
            e == 0x200i64 || e == 0x400i64,
    ;
    assert(none =~= Seq::empty());
    assert(none + data.subrange(0, 0) =~= none);
    lemma_written_so_far(writing, name, fd, data, none, 0, 0);
    assert(none + data =~= data);
    let k = reading.states.len() as int;
    lemma_read_so_far(reading, data, last, k - 1);
    assert(reading.is_served(data, k - 1));
    assert(data.subrange(0, data.len() as int) =~= data);
}

/// The first read has room for the whole file and one byte more, and for half
/// a kilobyte at least; it asks for no more than that.
pub proof fn law_first_read_sees_the_end(size: int)
    requires
        0 <= size < usize::MAX,
    ensures
        size < first_room(size),
        512 <= first_room(size),
        first_room(size) == size + 1 || first_room(size) == 512,
{
}

/// A read that gave bytes leaves those read before and adds the new ones at
/// the end, and there is room for more; one that gave none or failed ends the
/// reading with what there is.
pub proof fn law_reading_keeps_everything(s: Slurp, piece: Seq<u8>, rest: Seq<u8>, rc: i64, r: SlurpStep)
    requires
        after_read(s, rc, piece + rest, r),
    ensures
        rc > 0 && rc == piece.len() ==> (r matches SlurpStep::More(n) && n.data@ == s.data@ + piece
            && n.file == s.file && n.data@.len() < n.cap && n.cap >= s.cap),
        rc == 0 ==> (r matches SlurpStep::Done(d, e, f) && d@ == s.data@ && e is None && f == s.file),
        rc < 0 && s.file.fd >= 0 ==> (r matches SlurpStep::Done(d, Some(e), f) && d@ == s.data@ && f
            == s.file && e@ == (errors::ErrorView::Path {
            op: gostr::lit("read"),
            path: s.file.name@,
            err: errors::CauseView::Errno((-rc) as i32),
        })),
{
    if rc > 0 && rc == piece.len() {
        assert((piece + rest).subrange(0, rc as int) =~= piece);
    }
}

} // verus!
