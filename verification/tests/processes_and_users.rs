use goish::errors::{Cause, Error};
use goish::exec_posix::{timeval_to_duration, FindProcess, Process, ProcessState, Processes, Rusage, SignalString, Timeval};
use goish::gostr::{atoi, bytes_less, cut_at_nul, is_utf8, itoa, utoa, NumError};
use goish::syscall::{Call, Target};
use goish::user::{build_group, build_user, current_uid, id_number, lookup_user, lookup_user_id, CGroup, Current, Lookup, LookupGroup, LookupGroupId, LookupId, LookupStep, Passwd, User, UserError};
use goish::value::{Kind, New, Type, Value, Zero};

fn v(s: &str) -> Vec<u8> {
    s.as_bytes().to_vec()
}

fn passwd() -> Passwd {
    Passwd { pw_name: v("ann"), pw_uid: 1000, pw_gid: 100, pw_gecos: v("Ann Example,room 2"), pw_dir: v("/home/ann") }
}

#[test]
fn signals_have_names() {
    assert_eq!(SignalString(2), v("interrupt"));
    assert_eq!(SignalString(9), v("killed"));
    assert_eq!(SignalString(31), v("bad system call"));
    assert_eq!(SignalString(40), v("signal 40"));
    assert_eq!(SignalString(-1), v("signal -1"));
}

#[test]
fn exit_status_is_read() {
    let p = ProcessState::__new(7, 3 << 8);
    assert!(p.Exited() && !p.Signaled() && !p.Success());
    assert_eq!(p.ExitCode(), 3);
    assert_eq!(p.Pid(), 7);
    assert_eq!(p.String(), v("exit status 3"));
    assert!(ProcessState::__new(7, 0).Success());
}

#[test]
fn a_killed_process_has_no_exit_code() {
    let p = ProcessState::__new(7, 9);
    assert!(p.Signaled() && !p.Exited());
    assert_eq!(p.Signal(), 9);
    assert_eq!(p.ExitCode(), -1);
    assert_eq!(p.String(), v("signal: killed"));
    assert_eq!(ProcessState::__new(7, 11 | 0x80).String(), v("signal: segmentation fault (core dumped)"));
}

#[test]
fn stopped_and_continued_processes_say_so() {
    assert_eq!(ProcessState::__new(7, 0x137f).String(), v("stop signal: stopped (signal)"));
    assert_eq!(ProcessState::__new(7, 0x2057f).String(), v("stop signal: trace/breakpoint trap (trap 2)"));
    assert_eq!(ProcessState::__new(7, 0xffff).String(), v("continued"));
}

#[test]
fn times_are_in_nanoseconds() {
    assert_eq!(timeval_to_duration(Target::LinuxAmd64, Timeval { Sec: 2, Usec: 5 }), 2_000_005_000);
    assert_eq!(timeval_to_duration(Target::DarwinArm64, Timeval { Sec: 2, Usec: (7 << 32) + 5 }), 2_000_005_000);
    let mut ru = Rusage::default();
    ru.Utime = Timeval { Sec: 1, Usec: 0 };
    ru.Stime = Timeval { Sec: 0, Usec: 7 };
    let mut all = Processes::new();
    let p = Process::__new(&mut all, 5);
    let (s, e) = p.waited(&mut all, 5, 0, &ru);
    assert!(e.is_none());
    assert_eq!(s.UserTime(Target::LinuxAmd64), 1_000_000_000);
    assert_eq!(s.SystemTime(Target::LinuxAmd64), 7_000);
    assert!(s.SysUsage().is_some());
    assert!(ProcessState::__new(1, 0).SysUsage().is_none());
}

#[test]
fn a_waited_process_gets_no_signal() {
    let mut all = Processes::new();
    let p = Process::__new(&mut all, 5);
    assert!(matches!(p.Kill(&all), Ok(Call::Kill { pid: 5, sig: 9 })));
    assert!(matches!(p.Wait(), Call::Wait4 { pid: 5, options: 0 }));
    let (_s, e) = p.waited(&mut all, -10, 0, &Rusage::default());
    assert!(matches!(e, Some(Error::Syscall(x)) if x.Syscall == v("wait") && matches!(x.Err, Cause::Errno(10))));
    assert!(p.Signal(&all, 15).is_ok());
    let (_s, e) = p.waited(&mut all, 5, 0, &Rusage::default());
    assert!(e.is_none());
    assert!(matches!(p.Signal(&all, 15), Err(Error::Bare(Cause::Message(m))) if m == v("os: process already finished")));
}

#[test]
fn a_released_process_gets_no_signal() {
    let mut all = Processes::new();
    let (mut p, e) = FindProcess(&mut all, 5);
    assert!(e.is_none());
    assert!(p.Release(&mut all).is_none());
    assert_eq!(p.Pid, -1);
    assert!(matches!(p.Signal(&all, 15), Err(Error::Bare(Cause::Message(m))) if m == v("os: process already released")));
    assert!(Process::signaled(0).is_none());
    assert!(matches!(Process::signaled(-3), Some(Error::Bare(Cause::Message(_)))));
    assert!(matches!(Process::signaled(-1), Some(Error::Bare(Cause::Errno(1)))));
}

#[test]
fn clones_of_a_process_share_its_state() {
    let mut all = Processes::new();
    let mut p = Process::__new(&mut all, 5);
    let q = p.clone();
    let other = Process::__new(&mut all, 6);
    assert!(q.Signal(&all, 15).is_ok());
    let (_s, e) = p.waited(&mut all, 5, 0, &Rusage::default());
    assert!(e.is_none());
    assert!(matches!(q.Kill(&all), Err(Error::Bare(Cause::Message(m))) if m == v("os: process already finished")));
    assert!(p.Release(&mut all).is_none());
    assert_eq!((p.Pid, q.Pid), (-1, 5));
    assert!(matches!(q.Kill(&all), Err(Error::Bare(Cause::Message(m))) if m == v("os: process already released")));
    assert!(other.Kill(&all).is_ok());
}

#[test]
fn decimal_numbers_round_trip() {
    for x in [0i64, 7, -7, 10, -10, 1234567890, i64::MAX, i64::MIN] {
        assert_eq!(itoa(x), x.to_string().into_bytes());
        assert_eq!(atoi(&itoa(x)).ok(), Some(x));
    }
    assert_eq!(utoa(u64::MAX), u64::MAX.to_string().into_bytes());
    assert!(matches!(atoi(b""), Err(NumError::Syntax)));
    assert!(matches!(atoi(b"1x"), Err(NumError::Syntax)));
    assert!(matches!(atoi(b"9223372036854775808"), Err(NumError::Range)));
}

#[test]
fn byte_strings_order_and_cut() {
    assert!(bytes_less(b"a", b"b"));
    assert!(bytes_less(b"a", b"ab"));
    assert!(!bytes_less(b"b", b"ab"));
    assert!(!bytes_less(b"a", b"a"));
    assert_eq!(goish::gostr::concat(b"a", b"bc"), v("abc"));
    assert_eq!(cut_at_nul(b"xab\0c", 1, 5), v("ab"));
    assert!(is_utf8("é".as_bytes()));
    assert!(!is_utf8(&[0xff]));
    assert!(!is_utf8(&[0xed, 0xa0, 0x80]));
}

#[test]
fn users_are_built_from_the_account() {
    let u = build_user(&passwd());
    assert_eq!(u.Uid, v("1000"));
    assert_eq!(u.Gid, v("100"));
    assert_eq!(u.Username, v("ann"));
    assert_eq!(u.Name, v("Ann Example"));
    assert_eq!(u.HomeDir, v("/home/ann"));
    assert_eq!(u.GroupIds(), vec![v("100")]);
    assert!(User::default().GroupIds().is_empty());
    let g = build_group(&CGroup { gr_name: v("staff"), gr_gid: 20 });
    assert_eq!(g.Gid, v("20"));
    assert_eq!(g.Name, v("staff"));
}

#[test]
fn unknown_users_are_told_from_failures() {
    assert!(matches!(lookup_user(&v("bob"), 0, None), Err(UserError::UnknownUser(n)) if n == v("bob")));
    assert!(matches!(lookup_user(&v("bob"), 2, None), Err(UserError::UnknownUser(_))));
    assert!(matches!(lookup_user(&v("bob"), 5, None), Err(UserError::System(_, n, 5)) if n == v("bob")));
    assert!(matches!(lookup_user(&v("ann"), 0, Some(passwd())), Ok(u) if u.Username == v("ann")));
    assert!(matches!(lookup_user_id(&v("12"), 0, None), Err(UserError::UnknownUserId(12))));
    assert!(matches!(lookup_user_id(&v("x"), 0, None), Err(UserError::Number(NumError::Syntax, _))));
    assert!(matches!(LookupGroup(&v("g"), 0, None), Err(UserError::UnknownGroup(_))));
    assert!(matches!(LookupGroupId(&v("9"), 0, None), Err(UserError::UnknownGroupId(_))));
    assert!(matches!(LookupGroupId(&v("9"), 0, Some(CGroup { gr_name: v("g"), gr_gid: 9 })), Ok(g) if g.Gid == v("9")));
    assert!(matches!(id_number(&v("77")), Ok(77)));
}

#[test]
fn the_current_user_is_not_looked_up_twice() {
    assert!(matches!(Lookup(&v("ann"), Ok(build_user(&passwd()))), LookupStep::Found(_)));
    assert!(matches!(Lookup(&v("bob"), Ok(build_user(&passwd()))), LookupStep::AskName(n) if n == v("bob")));
    assert!(matches!(LookupId(&v("1000"), Ok(build_user(&passwd()))), LookupStep::Found(_)));
    assert!(matches!(LookupId(&v("1"), Ok(build_user(&passwd()))), LookupStep::AskId(_)));
    assert_eq!(current_uid(42), v("42"));
    assert!(Current(Ok(build_user(&passwd())), None).is_ok());
    assert!(Current(Err(UserError::UnknownUserId(1)), Some(Ok(build_user(&passwd())))).is_ok());
    assert!(matches!(Current(Err(UserError::UnknownUserId(1)), None), Err(UserError::UnknownUserId(1))));
}

#[test]
fn values_start_at_zero() {
    assert!(matches!(Zero(&Type::Basic(Kind::Bool)), Value::Bool(false)));
    assert!(matches!(Zero(&Type::Basic(Kind::Int8)), Value::Int8(0)));
    assert!(matches!(Zero(&Type::Slice(Kind::Uint8)), Value::Slice { elem: Kind::Uint8, items } if items.is_empty()));
    assert!(matches!(New(&Type::Basic(Kind::Text)), Value::Pointer(b) if matches!(&*b, Value::Text(t) if t.is_empty())));
}

#[test]
fn setting_cuts_to_the_kind_and_keeps_names() {
    let mut x = Zero(&Type::Named(3, Box::new(Type::Basic(Kind::Int8))));
    x.SetInt(257);
    assert!(matches!(x, Value::Named { id: 3, inner } if matches!(*inner, Value::Int8(1))));
    let mut u = Zero(&Type::Basic(Kind::Uint16));
    u.SetUint(65537);
    assert!(matches!(u, Value::Uint16(1)));
    let mut b = Zero(&Type::Basic(Kind::Bool));
    b.SetBool(true);
    assert!(matches!(b, Value::Bool(true)));
    let mut t = Zero(&Type::Basic(Kind::Text));
    t.SetString(v("hi"));
    assert!(matches!(t, Value::Text(s) if s == v("hi")));
    let mut s = Zero(&Type::Slice(Kind::Uint8));
    s.SetBytes(&vec![1, 2]);
    assert!(matches!(s, Value::Slice { items, .. } if items.len() == 2 && matches!(items[1], Value::Uint8(2))));
    let mut y = Value::Int(4);
    y.SetValue(Value::Bool(true));
    assert!(matches!(y, Value::Bool(true)));
}
