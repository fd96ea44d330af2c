//! Processes: their exit states, and signals to them.

use vstd::prelude::*;

use crate::errors::{errno, message, Error, NewSyscallError};
use crate::gostr::{append, itoa, text};
use crate::syscall::{Call, Target};
use crate::{errors, gostr};

verus! {

use crate::errors::{CauseView, ErrorView};

/// The name of a signal, empty where it has none.
pub open spec fn signal_name(sig: int) -> Seq<u8> {
    if sig == 1 {
        gostr::lit("hangup")
    } else if sig == 2 {
        gostr::lit("interrupt")
    } else if sig == 3 {
        gostr::lit("quit")
    } else if sig == 4 {
        gostr::lit("illegal instruction")
    } else if sig == 5 {
        gostr::lit("trace/breakpoint trap")
    } else if sig == 6 {
        gostr::lit("aborted")
    } else if sig == 7 {
        gostr::lit("bus error")
    } else if sig == 8 {
        gostr::lit("floating point exception")
    } else if sig == 9 {
        gostr::lit("killed")
    } else if sig == 10 {
        gostr::lit("user defined signal 1")
    } else if sig == 11 {
        gostr::lit("segmentation fault")
    } else if sig == 12 {
        gostr::lit("user defined signal 2")
    } else if sig == 13 {
        gostr::lit("broken pipe")
    } else if sig == 14 {
        gostr::lit("alarm clock")
    } else if sig == 15 {
        gostr::lit("terminated")
    } else if sig == 16 {
        gostr::lit("stack fault")
    } else if sig == 17 {
        gostr::lit("child exited")
    } else if sig == 18 {
        gostr::lit("continued")
    } else if sig == 19 {
        gostr::lit("stopped (signal)")
    } else if sig == 20 {
        gostr::lit("stopped")
    } else if sig == 21 {
        gostr::lit("stopped (tty input)")
    } else if sig == 22 {
        gostr::lit("stopped (tty output)")
    } else if sig == 23 {
        gostr::lit("urgent I/O condition")
    } else if sig == 24 {
        gostr::lit("CPU time limit exceeded")
    } else if sig == 25 {
        gostr::lit("file size limit exceeded")
    } else if sig == 26 {
        gostr::lit("virtual timer expired")
    } else if sig == 27 {
        gostr::lit("profiling timer expired")
    } else if sig == 28 {
        gostr::lit("window changed")
    } else if sig == 29 {
        gostr::lit("I/O possible")
    } else if sig == 30 {
        gostr::lit("power failure")
    } else {
        gostr::lit("bad system call")
    }
}

/// The text of a signal: its name, or its number where it has none.
pub open spec fn signal_text(sig: int) -> Seq<u8> {
    if 1 <= sig <= 31 {
        signal_name(sig)
    } else {
        gostr::lit("signal ") + gostr::dec(sig)
    }
}

pub fn SignalString(sig: i64) -> (r: Vec<u8>)
    ensures
        r@ == signal_text(sig as int),
{
    match sig {
        1 => text("hangup"),
        2 => text("interrupt"),
        3 => text("quit"),
        4 => text("illegal instruction"),
        5 => text("trace/breakpoint trap"),
        6 => text("aborted"),
        7 => text("bus error"),
        8 => text("floating point exception"),
        9 => text("killed"),
        10 => text("user defined signal 1"),
        11 => text("segmentation fault"),
        12 => text("user defined signal 2"),
        13 => text("broken pipe"),
        14 => text("alarm clock"),
        15 => text("terminated"),
        16 => text("stack fault"),
        17 => text("child exited"),
        18 => text("continued"),
        19 => text("stopped (signal)"),
        20 => text("stopped"),
        21 => text("stopped (tty input)"),
        22 => text("stopped (tty output)"),
        23 => text("urgent I/O condition"),
        24 => text("CPU time limit exceeded"),
        25 => text("file size limit exceeded"),
        26 => text("virtual timer expired"),
        27 => text("profiling timer expired"),
        28 => text("window changed"),
        29 => text("I/O possible"),
        30 => text("power failure"),
        31 => text("bad system call"),
        _ => {
            let mut out = text("signal ");
            append(&mut out, itoa(sig).as_slice());
            out
        },
    }
}

#[derive(Clone, Copy, Debug, PartialEq, Eq, Structural)]
pub struct Timeval {
    pub Sec: i64,
    pub Usec: i64,
}

/// What a process used.
#[derive(Clone, Copy, Debug, PartialEq, Eq, Structural)]
pub struct Rusage {
    pub Utime: Timeval,
    pub Stime: Timeval,
    pub Maxrss: i64,
    pub Ixrss: i64,
    pub Idrss: i64,
    pub Isrss: i64,
    pub Minflt: i64,
    pub Majflt: i64,
    pub Nswap: i64,
    pub Inblock: i64,
    pub Oublock: i64,
    pub Msgsnd: i64,
    pub Msgrcv: i64,
    pub Nsignals: i64,
    pub Nvcsw: i64,
    pub Nivcsw: i64,
}

pub open spec fn no_rusage() -> Rusage {
    Rusage {
        Utime: Timeval { Sec: 0, Usec: 0 },
        Stime: Timeval { Sec: 0, Usec: 0 },
        Maxrss: 0,
        Ixrss: 0,
        Idrss: 0,
        Isrss: 0,
        Minflt: 0,
        Majflt: 0,
        Nswap: 0,
        Inblock: 0,
        Oublock: 0,
        Msgsnd: 0,
        Msgrcv: 0,
        Nsignals: 0,
        Nvcsw: 0,
        Nivcsw: 0,
    }
}

impl Default for Timeval {
    fn default() -> (r: Self)
        ensures
            r == (Timeval { Sec: 0, Usec: 0 }),
    {
        Timeval { Sec: 0, Usec: 0 }
    }
}

impl Default for Rusage {
    fn default() -> (r: Self)
        ensures
            r == no_rusage(),
    {
        Rusage {
            Utime: Timeval { Sec: 0, Usec: 0 },
            Stime: Timeval { Sec: 0, Usec: 0 },
            Maxrss: 0,
            Ixrss: 0,
            Idrss: 0,
            Isrss: 0,
            Minflt: 0,
            Majflt: 0,
            Nswap: 0,
            Inblock: 0,
            Oublock: 0,
            Msgsnd: 0,
            Msgrcv: 0,
            Nsignals: 0,
            Nvcsw: 0,
            Nivcsw: 0,
        }
    }
}

/// How a process ended or stopped, as the kernel reports it.
#[derive(Clone, Copy, Debug)]
pub struct ProcessState {
    pub pid: i64,
    pub status: i32,
    pub rusage: Rusage,
    pub has_rusage: bool,
}

pub open spec fn has_exited(status: i32) -> bool {
    status & 0x7f == 0
}

pub open spec fn was_signaled(status: i32) -> bool {
    status & 0x7f != 0 && status & 0x7f != 0x7f
}

pub open spec fn exit_code(status: i32) -> int {
    if has_exited(status) {
        ((status >> 8) & 0xff) as int
    } else {
        -1
    }
}

pub open spec fn succeeded(status: i32) -> bool {
    has_exited(status) && exit_code(status) == 0
}

pub open spec fn end_signal(status: i32) -> int {
    if was_signaled(status) {
        (status & 0x7f) as int
    } else {
        -1
    }
}

pub open spec fn dumped_core(status: i32) -> bool {
    was_signaled(status) && status & 0x80 != 0
}

pub const SIGTRAP: i32 = 5;

/// The state without the note of a core dump.
pub open spec fn state_head(status: i32) -> Seq<u8> {
    let stop = (status >> 8) & 0xff;
    let cause = (status >> 8) >> 8;
    if has_exited(status) {
        gostr::lit("exit status ") + gostr::dec(exit_code(status))
    } else if was_signaled(status) {
        gostr::lit("signal: ") + signal_text(end_signal(status))
    } else if status & 0xff == 0x7f {
        if stop == SIGTRAP && cause != 0 {
            gostr::lit("stop signal: ") + signal_text(stop as int) + gostr::lit(" (trap ") + gostr::dec(cause as int)
                + gostr::lit(")")
        } else {
            gostr::lit("stop signal: ") + signal_text(stop as int)
        }
    } else if status == 0xffff {
        gostr::lit("continued")
    } else {
        gostr::lit("")
    }
}

pub open spec fn state_text(status: i32) -> Seq<u8> {
    if dumped_core(status) {
        state_head(status) + gostr::lit(" (core dumped)")
    } else {
        state_head(status)
    }
}

/// A process exited, was killed, or is neither: never both of the first two.
pub proof fn law_exit_and_signal_exclude(status: i32)
    ensures
        !(has_exited(status) && was_signaled(status)),
        has_exited(status) ==> 0 <= exit_code(status) <= 255,
        was_signaled(status) ==> 0 < end_signal(status) < 127,
        exit_code(status) == -1 <==> !has_exited(status),
{
    assert(0 <= ((status >> 8) & 0xff) <= 255 && (status & 0x7f) >= 0 && (status & 0x7f) <= 0x7f)
        by (bit_vector);
}

/// The microseconds of a time value. One kernel fills their low half only.
pub open spec fn usec_of(sys: Target, tv: Timeval) -> int {
    if sys == Target::DarwinArm64 {
        (tv.Usec as i32) as int
    } else {
        tv.Usec as int
    }
}

/// A duration in nanoseconds.
pub open spec fn timeval_ns(sys: Target, tv: Timeval) -> int {
    tv.Sec * 1_000_000_000 + usec_of(sys, tv) * 1_000
}

pub open spec fn timeval_fits(sys: Target, tv: Timeval) -> bool {
    &&& i64::MIN <= tv.Sec * 1_000_000_000 <= i64::MAX
    &&& i64::MIN <= usec_of(sys, tv) * 1_000 <= i64::MAX
    &&& i64::MIN <= timeval_ns(sys, tv) <= i64::MAX
}

/// The duration of a time value, which must fit.
pub fn timeval_to_duration(sys: Target, tv: Timeval) -> (r: i64)
    requires
        timeval_fits(sys, tv),
    ensures
        r == timeval_ns(sys, tv),
{
    let usec: i64 = match sys {
        Target::DarwinArm64 => (#[verifier::truncate] (tv.Usec as i32)) as i64,
        _ => tv.Usec,
    };
    tv.Sec * 1_000_000_000 + usec * 1_000
}

impl ProcessState {
    pub fn __new(pid: i64, status: i32) -> (r: Self)
        ensures
            r.pid == pid,
            r.status == status,
            r.rusage == no_rusage(),
            !r.has_rusage,
    {
        ProcessState { pid, status, rusage: Rusage::default(), has_rusage: false }
    }

    pub fn Pid(&self) -> (r: i64)
        ensures
            r == self.pid,
    {
        self.pid
    }

    pub fn Exited(&self) -> (r: bool)
        ensures
            r == has_exited(self.status),
    {
        self.status & 0x7f == 0
    }

    pub fn Signaled(&self) -> (r: bool)
        ensures
            r == was_signaled(self.status),
    {
        let low: i32 = self.status & 0x7f;
        low != 0 && low != 0x7f
    }

    pub fn CoreDump(&self) -> (r: bool)
        ensures
            r == dumped_core(self.status),
    {
        self.Signaled() && self.status & 0x80 != 0
    }

    pub fn Signal(&self) -> (r: i64)
        ensures
            r == end_signal(self.status),
    {
        if !self.Signaled() {
            return -1;
        }
        (self.status & 0x7f) as i64
    }

    pub fn ExitCode(&self) -> (r: i64)
        ensures
            r == exit_code(self.status),
    {
        if !self.Exited() {
            return -1;
        }
        ((self.status >> 8) & 0xff) as i64
    }

    pub fn Success(&self) -> (r: bool)
        ensures
            r == succeeded(self.status),
    {
        self.Exited() && self.ExitCode() == 0
    }

    /// Time spent in the program, in nanoseconds.
    pub fn UserTime(&self, sys: Target) -> (r: i64)
        requires
            timeval_fits(sys, self.rusage.Utime),
        ensures
            r == timeval_ns(sys, self.rusage.Utime),
    {
        timeval_to_duration(sys, self.rusage.Utime)
    }

    /// Time spent in the kernel, in nanoseconds.
    pub fn SystemTime(&self, sys: Target) -> (r: i64)
        requires
            timeval_fits(sys, self.rusage.Stime),
        ensures
            r == timeval_ns(sys, self.rusage.Stime),
    {
        timeval_to_duration(sys, self.rusage.Stime)
    }

    pub fn Sys(&self) -> (r: i32)
        ensures
            r == self.status,
    {
        self.status
    }

    pub fn SysUsage(&self) -> (r: Option<Rusage>)
        ensures
            r == (if self.has_rusage {
                Some(self.rusage)
            } else {
                None
            }),
    {
        if !self.has_rusage {
            return None;
        }
        Some(self.rusage)
    }

    pub fn String(&self) -> (r: Vec<u8>)
        ensures
            r@ == state_text(self.status),
    {
        let stop: i32 = (self.status >> 8) & 0xff;
        let cause: i32 = (self.status >> 8) >> 8;
        let mut res = if self.Exited() {
            let mut s = text("exit status ");
            append(&mut s, itoa(self.ExitCode()).as_slice());
            s
        } else if self.Signaled() {
            let mut s = text("signal: ");
            append(&mut s, SignalString(self.Signal()).as_slice());
            s
        } else if self.status & 0xff == 0x7f {
            let mut s = text("stop signal: ");
            append(&mut s, SignalString(stop as i64).as_slice());
            if stop == SIGTRAP && cause != 0 {
                append(&mut s, text(" (trap ").as_slice());
                append(&mut s, itoa(cause as i64).as_slice());
                append(&mut s, text(")").as_slice());
            }
            s
        } else if self.status == 0xffff {
            text("continued")
        } else {
            text("")
        };
        if self.CoreDump() {
            append(&mut res, text(" (core dumped)").as_slice());
        }
        res
    }
}

pub open spec fn process_done() -> ErrorView {
    ErrorView::Bare(CauseView::Message(gostr::lit("os: process already finished")))
}

pub open spec fn process_released() -> ErrorView {
    ErrorView::Bare(CauseView::Message(gostr::lit("os: process already released")))
}

pub fn ErrProcessDone() -> (r: Error)
    ensures
        r@ == process_done(),
{
    message("os: process already finished")
}

/// What all handles of a process share; neither is ever cleared.
#[derive(Clone, Copy, Debug, PartialEq, Eq, Structural)]
pub struct ProcessFlags {
    pub done: bool,
    pub released: bool,
}

/// The shared part of all processes.
pub struct Processes {
    pub flags: Vec<ProcessFlags>,
}

impl Processes {
    pub fn new() -> (r: Self)
        ensures
            r.flags@.len() == 0,
    {
        Processes { flags: Vec::new() }
    }
}

/// A process. A clone has its own `Pid`, and shares with the original whether
/// the process is done or released: one holder can kill a child while another
/// waits for it.
#[derive(Clone, Copy, Debug, PartialEq, Eq, Structural)]
pub struct Process {
    pub Pid: i64,
    /// Where the shared part stands.
    pub handle: usize,
}

/// The shared parts after a process was waited for.
pub open spec fn marked_done(flags: Seq<ProcessFlags>, p: Process) -> Seq<ProcessFlags> {
    flags.update(p.handle as int, ProcessFlags { done: true, ..flags[p.handle as int] })
}

/// The shared parts after a process was released.
pub open spec fn marked_released(flags: Seq<ProcessFlags>, p: Process) -> Seq<ProcessFlags> {
    flags.update(p.handle as int, ProcessFlags { released: true, ..flags[p.handle as int] })
}

/// Why a signal is not sent: the process was released, or else it was waited
/// for.
pub open spec fn refusal(flags: Seq<ProcessFlags>, p: Process) -> Option<ErrorView> {
    if flags[p.handle as int].released {
        Some(process_released())
    } else if flags[p.handle as int].done {
        Some(process_done())
    } else {
        None
    }
}

/// `r` is what sending a signal does: the call, or why there is none.
pub open spec fn sends(flags: Seq<ProcessFlags>, p: Process, sig: i64, r: Result<Call, Error>) -> bool {
    match refusal(flags, p) {
        Some(e) => r matches Err(x) && x@ == e,
        None => r == Ok::<Call, Error>(Call::Kill { pid: p.Pid as i32, sig: sig as i32 }),
    }
}

/// What the kernel's answer to a signal says.
pub open spec fn signal_answer(rc: i32) -> Option<ErrorView> {
    if rc == 0 {
        None
    } else if rc == -3 {
        Some(process_done())
    } else {
        Some(ErrorView::Bare(errors::errno_of(rc as i64)))
    }
}

/// `after` and `r` follow the kernel's answer to a wait.
pub open spec fn waits(
    flags: Seq<ProcessFlags>,
    after: Seq<ProcessFlags>,
    p: Process,
    rc: i32,
    status: i32,
    ru: Rusage,
    r: (ProcessState, Option<Error>),
) -> bool {
    if rc < 0 {
        &&& after == flags
        &&& r.0 == (ProcessState {
            pid: p.Pid,
            status: 0,
            rusage: no_rusage(),
            has_rusage: false,
        })
        &&& errors::err_view(r.1) == Some(
            ErrorView::Syscall { call: gostr::lit("wait"), err: errors::errno_of(rc as i64) },
        )
    } else {
        &&& after == marked_done(flags, p)
        &&& r.0 == (ProcessState {
            pid: rc as i64,
            status,
            rusage: ru,
            has_rusage: true,
        })
        &&& r.1 is None
    }
}

impl Process {
    /// A process that is believed to live.
    pub fn __new(all: &mut Processes, pid: i64) -> (r: Self)
        ensures
            final(all).flags@ == old(all).flags@.push(
                ProcessFlags { done: false, released: false },
            ),
            r == (Process { Pid: pid, handle: old(all).flags@.len() as usize }),
            r.handle < final(all).flags@.len(),
    {
        let handle: usize = all.flags.len();
        all.flags.push(ProcessFlags { done: false, released: false });
        Process { Pid: pid, handle }
    }

    pub fn __set_done(&self, all: &mut Processes)
        requires
            self.handle < old(all).flags@.len(),
        ensures
            final(all).flags@ == marked_done(old(all).flags@, *self),
    {
        let mut f = all.flags[self.handle];
        f.done = true;
        all.flags.set(self.handle, f);
    }

    /// The call that sends a signal. A released process, and one that has been
    /// waited for, get none, through whichever clone that was done.
    pub fn Signal(&self, all: &Processes, sig: i64) -> (r: Result<Call, Error>)
        requires
            self.handle < all.flags@.len(),
        ensures
            sends(all.flags@, *self, sig, r),
    {
        let f = all.flags[self.handle];
        if f.released {
            return Err(message("os: process already released"));
        }
        if f.done {
            return Err(ErrProcessDone());
        }
        Ok(Call::Kill { pid: self.Pid as i32, sig: sig as i32 })
    }

    /// Kills the process.
    pub fn Kill(&self, all: &Processes) -> (r: Result<Call, Error>)
        requires
            self.handle < all.flags@.len(),
        ensures
            sends(all.flags@, *self, 9, r),
    {
        self.Signal(all, 9)
    }

    /// The answer to a sent signal: a process that is gone has finished.
    pub fn signaled(rc: i32) -> (r: Option<Error>)
        requires
            i32::MIN < rc <= 0,
        ensures
            errors::err_view(r) == signal_answer(rc),
    {
        if rc == 0 {
            return None;
        }
        if rc == -3 {
            return Some(ErrProcessDone());
        }
        Some(Error::Bare(errno(rc as i64)))
    }

    /// Gives the process up.
    pub fn Release(&mut self, all: &mut Processes) -> (r: Option<Error>)
        requires
            old(self).handle < old(all).flags@.len(),
        ensures
            r is None,
            final(all).flags@ == marked_released(old(all).flags@, *old(self)),
            *final(self) == (Process { Pid: (-1) as i64, ..*old(self) }),
    {
        let mut f = all.flags[self.handle];
        f.released = true;
        all.flags.set(self.handle, f);
        self.Pid = -1;
        None
    }

    /// The call that waits for the process.
    pub fn Wait(&self) -> (r: Call)
        ensures
            r == (Call::Wait4 { pid: self.Pid as i32, options: 0 }),
    {
        Call::Wait4 { pid: self.Pid as i32, options: 0 }
    }

    /// The answer to a wait: the state of the process, which is then done.
    pub fn waited(&self, all: &mut Processes, rc: i32, status: i32, ru: &Rusage) -> (r: (
        ProcessState,
        Option<Error>,
    ))
        requires
            rc > i32::MIN,
            self.handle < old(all).flags@.len(),
        ensures
            waits(old(all).flags@, final(all).flags@, *self, rc, status, *ru, r),
    {
        if rc < 0 {
            return (
                ProcessState::__new(self.Pid, 0),
                Some(NewSyscallError("wait", errno(rc as i64))),
            );
        }
        self.__set_done(all);
        (ProcessState { pid: rc as i64, status, rusage: *ru, has_rusage: true }, None)
    }
}

/// Finding a process does not ask whether it exists.
pub fn FindProcess(all: &mut Processes, pid: i64) -> (r: (Process, Option<Error>))
    ensures
        final(all).flags@ == old(all).flags@.push(ProcessFlags { done: false, released: false }),
        r.0 == (Process { Pid: pid, handle: old(all).flags@.len() as usize }),
        r.0.handle < final(all).flags@.len(),
        r.1 is None,
{
    (Process::__new(all, pid), None)
}

/// Clones share whether a process is done or released: what one of them does
/// decides what the other one's signals meet, and no signal of either reaches
/// the kernel then. That a process was released is reported first.
pub proof fn law_clones_share_state(flags: Seq<ProcessFlags>, p: Process, clone: Process)
    requires
        p.handle < flags.len(),
        clone.handle == p.handle,
    ensures
        refusal(marked_released(flags, p), clone) == Some(process_released()),
        refusal(marked_done(flags, p), clone) == (if flags[p.handle as int].released {
            Some(process_released())
        } else {
            Some(process_done())
        }),
{
}

/// What is done with a process does not concern another one.
pub proof fn law_processes_are_apart(flags: Seq<ProcessFlags>, p: Process, other: Process)
    requires
        p.handle < flags.len(),
        other.handle < flags.len(),
        other.handle != p.handle,
    ensures
        refusal(marked_released(flags, p), other) == refusal(flags, other),
        refusal(marked_done(flags, p), other) == refusal(flags, other),
{
}

/// Once a process was released or waited for, no signal reaches the kernel any
/// more, whatever is done with any process.
pub proof fn law_finished_process_gets_no_signal(
    flags: Seq<ProcessFlags>,
    p: Process,
    other: Process,
)
    requires
        p.handle < flags.len(),
        other.handle < flags.len(),
        refusal(flags, p) is Some,
    ensures
        refusal(marked_done(flags, other), p) is Some,
        refusal(marked_released(flags, other), p) is Some,
        refusal(flags.push(ProcessFlags { done: false, released: false }), p) is Some,
{
}

// ---- what a status says ----

/// A process that ends with an exit code, any from 0 to 255, is reported with
/// that code and as nothing else.
pub proof fn law_exit_code_is_reported(code: int, status: i32)
    requires
        0 <= code <= 255,
        status == 256 * code,
    ensures
        has_exited(status),
        exit_code(status) == code,
        !was_signaled(status),
        end_signal(status) == -1,
        !dumped_core(status),
        state_text(status) == gostr::lit("exit status ") + gostr::dec(code),
{
    let c = code as i32;
    assert(status & 0x7f == 0 && (status >> 8) & 0xff == c) by (bit_vector)
        requires
            status == 256 * c,
            0 <= c <= 255,
    ;
}

/// A process that a signal ended is reported with that signal, and with its
/// core dump if there was one, and has no exit code.
pub proof fn law_end_signal_is_reported(sig: int, core: bool, status: i32)
    requires
        1 <= sig <= 126,
        status == sig + (if core {
            128int
        } else {
            0int
        }),
    ensures
        !has_exited(status),
        exit_code(status) == -1,
        was_signaled(status),
        end_signal(status) == sig,
        dumped_core(status) == core,
        state_text(status) == gostr::lit("signal: ") + signal_text(sig) + (if core {
            gostr::lit(" (core dumped)")
        } else {
            Seq::empty()
        }),
{
    let s = sig as i32;
    assert(status & 0x7f == s && (status & 0x80 != 0) == (status != s)) by (bit_vector)
        requires
            status == s || status == s + 128,
            1 <= s <= 126,
    ;
    let head = gostr::lit("signal: ") + signal_text(sig);
    assert(head + Seq::<u8>::empty() =~= head);
}

/// A process that a signal stopped is reported with that signal, and with the
/// number of the event for a trap that has one.
pub proof fn law_stop_signal_is_reported(sig: int, event: int, status: i32)
    requires
        0 <= sig <= 255,
        0 <= event <= 255,
        sig == 5 || event == 0,
        status == 65536 * event + 256 * sig + 127,
    ensures
        !has_exited(status) && !was_signaled(status) && !dumped_core(status),
        exit_code(status) == -1 && end_signal(status) == -1,
        state_text(status) == gostr::lit("stop signal: ") + signal_text(sig) + (if event == 0 {
            Seq::empty()
        } else {
            gostr::lit(" (trap ") + gostr::dec(event) + gostr::lit(")")
        }),
{
    let s = sig as i32;
    let e = event as i32;
    assert(status & 0x7f == 0x7f && status & 0xff == 0x7f && (status >> 8) & 0xff == s && (status
        >> 8) >> 8 == e) by (bit_vector)
        requires
            status == 65536 * e + 256 * s + 127,
            0 <= s <= 255,
            0 <= e <= 255,
    ;
    let head = gostr::lit("stop signal: ") + signal_text(sig);
    assert(head + Seq::<u8>::empty() =~= head);
    assert(head + gostr::lit(" (trap ") + gostr::dec(event) + gostr::lit(")") =~= head + (
    gostr::lit(" (trap ") + gostr::dec(event) + gostr::lit(")")));
}

/// Every signal has its own name up to the last named one; others go by their
/// number.
pub proof fn law_signal_names(sig: int)
    ensures
        1 <= sig <= 31 ==> signal_text(sig) == seq![
            gostr::lit("hangup"),
            gostr::lit("interrupt"),
            gostr::lit("quit"),
            gostr::lit("illegal instruction"),
            gostr::lit("trace/breakpoint trap"),
            gostr::lit("aborted"),
            gostr::lit("bus error"),
            gostr::lit("floating point exception"),
            gostr::lit("killed"),
            gostr::lit("user defined signal 1"),
            gostr::lit("segmentation fault"),
            gostr::lit("user defined signal 2"),
            gostr::lit("broken pipe"),
            gostr::lit("alarm clock"),
            gostr::lit("terminated"),
            gostr::lit("stack fault"),
            gostr::lit("child exited"),
            gostr::lit("continued"),
            gostr::lit("stopped (signal)"),
            gostr::lit("stopped"),
            gostr::lit("stopped (tty input)"),
            gostr::lit("stopped (tty output)"),
            gostr::lit("urgent I/O condition"),
            gostr::lit("CPU time limit exceeded"),
            gostr::lit("file size limit exceeded"),
            gostr::lit("virtual timer expired"),
            gostr::lit("profiling timer expired"),
            gostr::lit("window changed"),
            gostr::lit("I/O possible"),
            gostr::lit("power failure"),
            gostr::lit("bad system call"),
        ][sig - 1],
        sig < 1 || sig > 31 ==> signal_text(sig) == gostr::lit("signal ") + gostr::dec(sig),
{
}

/// A second counts a thousand million nanoseconds and a microsecond a thousand,
/// and times add up.
pub proof fn law_times_add_up(sys: Target, sec: i64, usec: i64)
    requires
        0 <= usec < 1_000_000,
        sec < i64::MAX,
    ensures
        timeval_ns(sys, Timeval { Sec: 0, Usec: 0 }) == 0,
        timeval_ns(sys, Timeval { Sec: (sec + 1) as i64, Usec: usec }) - timeval_ns(
            sys,
            Timeval { Sec: sec, Usec: usec },
        ) == 1_000_000_000,
        timeval_ns(sys, Timeval { Sec: sec, Usec: (usec + 1) as i64 }) - timeval_ns(
            sys,
            Timeval { Sec: sec, Usec: usec },
        ) == 1_000,
{
}

/// A process succeeded exactly if it ended with exit code zero.
pub proof fn law_success_is_exit_code_zero(code: int, sig: int, status: i32)
    requires
        0 <= code <= 255,
        1 <= sig <= 127,
    ensures
        status == 256 * code ==> (succeeded(status) <==> code == 0),
        status == sig || status == sig + 128 ==> !succeeded(status),
{
    if status == 256 * code {
        law_exit_code_is_reported(code, status);
    }
    let s = sig as i32;
    assert(status == s || status == s + 128 ==> status & 0x7f != 0) by (bit_vector)
        requires
            1 <= s <= 127,
    ;
}

/// A wait that gave a process's end reports its status and what it used, under
/// the number that the kernel gave, and nobody can signal the process any more.
/// A refused wait changes nothing.
pub proof fn law_wait_reports_the_end(
    flags: Seq<ProcessFlags>,
    after: Seq<ProcessFlags>,
    p: Process,
    clone: Process,
    rc: i32,
    status: i32,
    ru: Rusage,
    r: (ProcessState, Option<Error>),
    sig: i64,
    sent: Result<Call, Error>,
)
    requires
        p.handle < flags.len(),
        clone.handle == p.handle,
        waits(flags, after, p, rc, status, ru, r),
        sends(after, clone, sig, sent),
    ensures
        rc >= 0 ==> r.1 is None && r.0.pid == rc && r.0.status == status && r.0.rusage == ru
            && r.0.has_rusage && sent is Err,
        rc < 0 ==> after == flags && r.0.pid == p.Pid && !r.0.has_rusage && errors::err_view(r.1) == Some(
            ErrorView::Syscall { call: gostr::lit("wait"), err: CauseView::Errno((-rc) as i32) },
        ),
{
}

/// A process that was neither released nor waited for gets the signal; the
/// others get an error, which says first that it was released.
pub proof fn law_signal_reaches_the_living(
    flags: Seq<ProcessFlags>,
    p: Process,
    sig: i64,
    r: Result<Call, Error>,
)
    requires
        p.handle < flags.len(),
        sends(flags, p, sig, r),
    ensures
        ({
            let f = flags[p.handle as int];
            &&& !f.done && !f.released ==> r == Ok::<Call, Error>(
                Call::Kill { pid: p.Pid as i32, sig: sig as i32 },
            )
            &&& f.released ==> (r matches Err(e) && e@ == ErrorView::Bare(
                CauseView::Message(gostr::lit("os: process already released")),
            ))
            &&& f.done && !f.released ==> (r matches Err(e) && e@ == ErrorView::Bare(
                CauseView::Message(gostr::lit("os: process already finished")),
            ))
        }),
{
}

/// A signal to a process that is gone (error 3) says that it has finished; any
/// other refusal is the kernel's.
pub proof fn law_signal_answers(e: i32)
    requires
        e > 0,
    ensures
        signal_answer(0) is None,
        signal_answer((-3) as i32) == Some(
            ErrorView::Bare(CauseView::Message(gostr::lit("os: process already finished"))),
        ),
        e != 3 ==> signal_answer((-e) as i32) == Some(ErrorView::Bare(CauseView::Errno(e))),
{
}

} // verus!
