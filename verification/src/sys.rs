//! Conventions of the C library's calls, and what is passed to them.

use vstd::prelude::*;

verus! {

/// The size of a page on Darwin.
pub const PHYS_PAGE_SIZE: usize = 16384;

/// The result of a call that returns -1 and leaves its error aside: the
/// negated error, or what it returned.
pub fn errno_ret(r: i64, errno: i32) -> (rc: i64)
    ensures
        rc == (if r == -1 {
            -errno as int
        } else {
            r as int
        }),
{
    if r == -1 {
        -(errno as i64)
    } else {
        r
    }
}

/// The result of a call that returns its error: zero, or the negated error.
pub fn direct_ret(r: i32) -> (rc: i64)
    ensures
        rc == -(r as int),
{
    if r == 0 {
        0
    } else {
        -(r as i64)
    }
}

/// The result of a call that returns an address, or -1: the address as a
/// signed number, or the negated error.
pub fn ptr_ret(p: i64, errno: i32) -> (rc: i64)
    ensures
        rc == (if p == -1 {
            -errno as int
        } else {
            p as int
        }),
{
    if p == -1 {
        -(errno as i64)
    } else {
        p
    }
}

/// Length of the text before the first NUL, or of all.
pub open spec fn c_len(buf: Seq<u8>, n: int) -> int
    decreases buf.len() - n,
{
    if n < 0 || n >= buf.len() || buf[n] == 0 {
        n
    } else {
        c_len(buf, n + 1)
    }
}

fn c_length(buf: &[u8]) -> (n: usize)
    ensures
        n == c_len(buf@, 0),
        n <= buf.len(),
{
    let mut n: usize = 0;
    while n < buf.len() && buf[n] != 0
        invariant
            n <= buf.len(),
            c_len(buf@, 0) == c_len(buf@, n as int),
        decreases buf.len() - n,
    {
        n = n + 1;
    }
    n
}

/// The result of asking for the working directory: the negated error, or the
/// length of the path with its NUL.
pub fn sys_getcwd(found: bool, buf: &[u8], errno: i32) -> (rc: i64)
    requires
        buf.len() < 0x8000_0000,
    ensures
        rc == (if found {
            c_len(buf@, 0) + 1
        } else {
            -errno as int
        }),
{
    if !found {
        return -(errno as i64);
    }
    let n: usize = c_length(buf);
    n as i64 + 1
}

/// The result of asking for the program's path: -1, or the path's length.
pub fn sys_executable_path(rc: i32, buf: &[u8]) -> (r: i64)
    requires
        buf.len() < 0x8000_0000,
    ensures
        r == (if rc != 0 {
            -1
        } else {
            c_len(buf@, 0)
        }),
{
    if rc != 0 {
        return -1;
    }
    c_length(buf) as i64
}

// ---- the event queue ----

pub struct Kevent {
    pub ident: usize,
    pub filter: i16,
    pub flags: u16,
    pub fflags: u32,
    pub data: isize,
    pub udata: usize,
}

pub const EVFILT_READ: i16 = -1;

pub const EVFILT_WRITE: i16 = -2;

pub const EVFILT_USER: i16 = -10;

pub const EV_ADD: u16 = 0x1;

pub const EV_DELETE: u16 = 0x2;

pub const EV_ONESHOT: u16 = 0x10;

pub const EV_CLEAR: u16 = 0x20;

pub const EV_RECEIPT: u16 = 0x40;

pub const EV_ERROR: u16 = 0x4000;

pub const EV_EOF: u16 = 0x8000;

pub const NOTE_TRIGGER: u32 = 0x0100_0000;

/// The longest time, in seconds, that the kernel waits for events.
pub const KEVENT_MAX_SEC: i64 = 1_000_000;

/// A time to wait in seconds and nanoseconds, as the kernel takes it.
pub open spec fn timeout_of(ns: i64) -> (int, int) {
    let t = if ns < 0 {
        0
    } else {
        ns as int
    };
    (
        if t / 1_000_000_000 < KEVENT_MAX_SEC {
            t / 1_000_000_000
        } else {
            KEVENT_MAX_SEC as int
        },
        t % 1_000_000_000,
    )
}

/// How long to wait for events, in seconds and nanoseconds; without a limit,
/// forever.
pub fn kevent_timeout(timeout_ns: Option<i64>) -> (r: Option<(i64, i64)>)
    ensures
        match timeout_ns {
            None => r is None,
            Some(ns) => r is Some && ((r->0).0 as int, (r->0).1 as int) == timeout_of(ns),
        },
{
    match timeout_ns {
        None => None,
        Some(t) => {
            let ns: i64 = if t < 0 {
                0
            } else {
                t
            };
            let sec: i64 = ns / 1_000_000_000;
            let sec: i64 = if sec < KEVENT_MAX_SEC {
                sec
            } else {
                KEVENT_MAX_SEC
            };
            Some((sec, ns % 1_000_000_000))
        },
    }
}

// ---- signals and threads ----

pub struct BsdSigaction {
    pub handler: usize,
    pub mask: u32,
    pub flags: i32,
}

pub const UL_COMPARE_AND_WAIT: u32 = 1;

pub const ULF_NO_ERRNO: u32 = 0x0100_0000;

pub const ULF_WAKE_ALL: u32 = 0x0000_0100;

/// The result of a wait on a word: the negated error, or zero.
pub fn sys_ulock_wait(r: i32) -> (rc: i64)
    ensures
        rc == (if r < 0 {
            r as int
        } else {
            0
        }),
{
    if r < 0 {
        r as i64
    } else {
        0
    }
}

/// The operation that wakes one waiter or all of them.
pub fn ulock_wake_op(all: bool) -> (op: u32)
    ensures
        op == (if all {
            UL_COMPARE_AND_WAIT | ULF_NO_ERRNO | ULF_WAKE_ALL
        } else {
            UL_COMPARE_AND_WAIT | ULF_NO_ERRNO
        }),
{
    let all_flag: u32 = if all {
        ULF_WAKE_ALL
    } else {
        0
    };
    let op: u32 = UL_COMPARE_AND_WAIT | ULF_NO_ERRNO | all_flag;
    assert(1u32 | 0x0100_0000u32 | 0u32 == 1u32 | 0x0100_0000u32) by (bit_vector);
    op
}

/// How many waiters a wake-up is taken to have woken.
pub fn sys_ulock_wake(r: i32) -> (n: i64)
    ensures
        n == (if r < 0 {
            0int
        } else {
            1int
        }),
{
    if r < 0 {
        0
    } else {
        1
    }
}

/// The answers to the steps of starting a thread; a step after one that failed
/// is not taken, and its answer is not looked at.
pub struct SpawnAnswers {
    pub init: i32,
    pub set_stack: i32,
    pub set_detached: i32,
    pub create: i32,
    pub thread: i64,
}

/// The first error among the steps, zero for none.
pub open spec fn spawn_error(a: SpawnAnswers) -> i32 {
    if a.init != 0 {
        a.init
    } else if a.set_stack != 0 {
        a.set_stack
    } else if a.set_detached != 0 {
        a.set_detached
    } else {
        a.create
    }
}

/// The result of starting a thread: the thread, or the negated error.
pub fn sys_pthread_spawn(a: &SpawnAnswers) -> (rc: i64)
    ensures
        rc == (if spawn_error(*a) == 0 {
            a.thread as int
        } else {
            -(spawn_error(*a) as int)
        }),
{
    if a.init != 0 {
        return -(a.init as i64);
    }
    let mut r: i32 = a.set_stack;
    if r == 0 {
        r = a.set_detached;
    }
    if r == 0 {
        r = a.create;
    }
    if r == 0 {
        a.thread
    } else {
        -(r as i64)
    }
}

/// Up to a million seconds the time to wait is the time given, in seconds and a
/// rest below one; no time is waited for a time that is over, and never more
/// than a million seconds and the rest.
pub proof fn law_timeout_is_the_time(ns: i64)
    ensures
        0 <= timeout_of(ns).1 < 1_000_000_000,
        0 <= ns < 1_000_000_000_000_000 ==> timeout_of(ns).0 * 1_000_000_000 + timeout_of(ns).1 == ns,
        ns >= 1_000_000_000_000_000 ==> timeout_of(ns).0 == 1_000_000,
        ns < 0 ==> timeout_of(ns) == (0int, 0int),
{
}

/// The length of a text is that before its first NUL, or of all.
pub proof fn law_length_is_up_to_the_nul(before: Seq<u8>, text: Seq<u8>, rest: Seq<u8>)
    requires
        forall|i: int| 0 <= i < text.len() ==> #[trigger] text[i] != 0,
    ensures
        c_len(before + text + seq![0u8] + rest, before.len() as int) == before.len() + text.len(),
        c_len(before + text, before.len() as int) == before.len() + text.len(),
    decreases text.len(),
{
    let a = before + text + seq![0u8] + rest;
    let b = before + text;
    let n = before.len() as int;
    if text.len() == 0 {
        assert(a[n] == 0);
    } else {
        let more = before.push(text[0]);
        let less = text.subrange(1, text.len() as int);
        assert forall|i: int| 0 <= i < less.len() implies #[trigger] less[i] != 0 by {
            assert(less[i] == text[i + 1]);
        }
        law_length_is_up_to_the_nul(more, less, rest);
        assert(more + less + seq![0u8] + rest =~= a);
        assert(more + less =~= b);
        assert(a[n] == text[0] && b[n] == text[0]);
    }
}

/// The error of starting a thread is that of the first step that failed.
pub proof fn law_first_failed_step_counts(a: SpawnAnswers)
    ensures
        a.init != 0 ==> spawn_error(a) == a.init,
        a.init == 0 && a.set_stack != 0 ==> spawn_error(a) == a.set_stack,
        a.init == 0 && a.set_stack == 0 && a.set_detached != 0 ==> spawn_error(a) == a.set_detached,
        a.init == 0 && a.set_stack == 0 && a.set_detached == 0 ==> spawn_error(a) == a.create,
{
}

} // verus!
