use goish::errors::{Cause, Error, IsNotExist, EEXIST, ENOENT, ENOTDIR};
use goish::fileinfo::{base_name, direntType, fileinfo_from_stat, syscallMode, FileInfoData, FileMode, Time, ModeDevice, ModeCharDevice, ModeDir, ModeNamedPipe, ModeSetgid, ModeSetuid, ModeSocket, ModeSticky, ModeSymlink, TYPE_UNKNOWN};
use goish::os::{Chdir, Chmod, Chown, Chtimes, Create, Executable, Exit, Getgroups, Getwd, GetwdStep, Getting, GroupsStep, Hostname, IsPathSeparator, Lchown, Link, Lstat, Mkdir, Open, OpenFile, Pipe, Readlink, ReadlinkStep, Remove, RemoveStep, Rename, RenameStep, Stat, Stderr, Stdin, Stdout, Symlink, TempDir, Truncate, UserCacheDir, UserConfigDir, UserHomeDir, pipe_call};
use goish::syscall::{Call, Stat_t, Target, Timespec, O_APPEND, O_CLOEXEC, O_CREATE, O_WRONLY, S_IFDIR, S_IFLNK, UTIME_OMIT};

fn v(s: &str) -> Vec<u8> {
    s.as_bytes().to_vec()
}

fn st(mode: u32, dev: u64, ino: u64) -> Stat_t {
    Stat_t { st_dev: dev, st_ino: ino, st_mode: mode, ..Stat_t::default() }
}

fn path_error(e: Option<Error>, op: &str, path: &str, code: i32) -> bool {
    match e {
        Some(Error::Path(p)) => p.Op == v(op) && p.Path == v(path) && matches!(p.Err, Cause::Errno(c) if c == code),
        _ => false,
    }
}

fn link_error(e: Option<Error>, op: &str, old: &str, new: &str, code: i32) -> bool {
    match e {
        Some(Error::Link(p)) => p.Op == v(op) && p.Old == v(old) && p.New == v(new) && matches!(p.Err, Cause::Errno(c) if c == code),
        _ => false,
    }
}

#[test]
fn open_is_read_only_and_closed_on_exec() {
    let (c, op) = Open(Target::LinuxAmd64, &v("a/b"));
    match c {
        Call::Open { path, flags, mode } => {
            assert_eq!(path, b"a/b\0".to_vec());
            assert_eq!(flags, O_CLOEXEC);
            assert_eq!(mode, 0);
        }
        _ => panic!("not an open"),
    }
    let f = op.done(7).unwrap();
    assert_eq!(f.fd, 7);
    assert_eq!(f.name, v("a/b"));
}

#[test]
fn open_failure_names_the_path() {
    let (_c, op) = Open(Target::LinuxAmd64, &v("gone"));
    let e = op.done(-ENOENT).err();
    assert!(matches!(&e, Some(x) if IsNotExist(x)));
    assert!(path_error(e, "open", "gone", ENOENT));
}

#[test]
fn create_truncates_for_reading_and_writing() {
    let (c, _op) = Create(Target::LinuxAmd64, &v("x"));
    match c {
        Call::Open { flags, mode, .. } => {
            assert_eq!(flags, 2 | 0o100 | 0o1000 | 0o2000000);
            assert_eq!(mode, 0o666);
        }
        _ => panic!("not an open"),
    }
}

#[test]
fn open_file_keeps_the_special_permission_bits() {
    let (c, _op) = OpenFile(Target::LinuxAmd64, &v("x"), O_WRONLY | O_CREATE | O_APPEND, FileMode(0o755 | ModeSetuid));
    match c {
        Call::Open { flags, mode, .. } => {
            assert_eq!(flags, 1 | 0o100 | 0o2000 | 0o2000000);
            assert_eq!(mode, 0o4755);
        }
        _ => panic!("not an open"),
    }
}

#[test]
fn syscall_mode_keeps_setuid_setgid_and_sticky() {
    assert_eq!(syscallMode(FileMode(0o644)), 0o644);
    assert_eq!(syscallMode(FileMode(0o755 | ModeSetuid)), 0o4755);
    assert_eq!(syscallMode(FileMode(0o755 | ModeSetgid)), 0o2755);
    assert_eq!(syscallMode(FileMode(0o777 | ModeSticky)), 0o1777);
    assert_eq!(syscallMode(FileMode(0o755 | ModeDir)), 0o755);
}

#[test]
fn file_info_maps_the_kernel_types() {
    let kinds: [(u32, u32); 6] = [
        (0o040000, ModeDir),
        (0o120000, ModeSymlink),
        (0o060000, ModeDevice),
        (0o020000, ModeDevice | ModeCharDevice),
        (0o010000, ModeNamedPipe),
        (0o140000, ModeSocket),
    ];
    for (kernel, go) in kinds {
        let fi = fileinfo_from_stat(v("n"), &st(kernel | 0o751, 1, 2));
        assert_eq!(fi.Mode().0, go | 0o751);
        assert_eq!(fi.IsDir(), kernel == S_IFDIR);
    }
    let plain = fileinfo_from_stat(v("n"), &st(0o100000 | 0o7644, 1, 2));
    assert_eq!(plain.Mode().0, 0o644 | ModeSetuid | ModeSetgid | ModeSticky);
}

#[test]
fn file_info_keeps_name_size_and_time() {
    let mut s = st(0o100644, 3, 4);
    s.st_size = 99;
    s.st_mtime = 12;
    s.st_mtime_nsec = 34;
    s.st_uid = 1000;
    s.st_gid = 100;
    s.st_rdev = 0x801;
    s.st_atime = 56;
    s.st_ctime = 78;
    let fi = fileinfo_from_stat(v("n"), &s);
    assert_eq!(fi.Name(), v("n"));
    assert_eq!(fi.Size(), 99);
    assert_eq!(fi.ModTime(), Time::Unix { sec: 12, nsec: 34 });
    assert!(fi.Sys() == Some(s));
    let sys = fi.Sys().unwrap();
    assert_eq!((sys.st_uid, sys.st_gid, sys.st_rdev), (1000, 100, 0x801));
    assert_eq!((sys.st_atime, sys.st_ctime), (56, 78));
}

#[test]
fn mode_round_trips_through_the_kernel_bits() {
    let m = FileMode(0o640 | ModeSetgid | ModeSticky);
    let fi = fileinfo_from_stat(v("n"), &st(0o100000 | syscallMode(m), 1, 1));
    assert_eq!(fi.Mode(), m);
}

#[test]
fn same_file_goes_by_device_and_inode() {
    let a = fileinfo_from_stat(v("a"), &st(0o100644, 3, 4));
    let b = fileinfo_from_stat(v("b"), &st(0o100600, 3, 4));
    let c = fileinfo_from_stat(v("a"), &st(0o100644, 3, 5));
    let d = fileinfo_from_stat(v("a"), &st(0o100644, 2, 4));
    assert!(goish::fileinfo::SameFile(&a, &b));
    assert!(!goish::fileinfo::SameFile(&a, &c));
    assert!(!goish::fileinfo::SameFile(&a, &d));
    let n = FileInfoData::new(v("a"), 0, FileMode(0), Time::Zero, false);
    assert!(!goish::fileinfo::SameFile(&a, &n));
}

#[test]
fn dirent_types_map_to_modes() {
    assert_eq!(direntType(4).0, ModeDir);
    assert_eq!(direntType(8).0, 0);
    assert_eq!(direntType(10).0, ModeSymlink);
    assert_eq!(direntType(1).0, ModeNamedPipe);
    assert_eq!(direntType(2).0, ModeDevice | ModeCharDevice);
    assert_eq!(direntType(6).0, ModeDevice);
    assert_eq!(direntType(12).0, ModeSocket);
    assert_eq!(direntType(99).0, TYPE_UNKNOWN);
}

#[test]
fn base_name_has_no_slash() {
    assert_eq!(base_name(&v("/usr/lib/x.so")), v("x.so"));
    assert_eq!(base_name(&v("x")), v("x"));
    assert_eq!(base_name(&v("a/b/")), v("b"));
}

#[test]
fn stat_and_lstat_report_their_path() {
    let (c, op) = Stat(&v("f"));
    assert!(matches!(c, Call::Stat { path } if path == b"f\0".to_vec()));
    let (_fi, e) = op.done(-2, &st(0, 0, 0));
    assert!(path_error(e, "stat", "f", 2));
    let (c, op) = Lstat(&v("d/f"));
    assert!(matches!(c, Call::Lstat { path } if path == b"d/f\0".to_vec()));
    let (fi, e) = op.done(0, &st(S_IFLNK | 0o777, 1, 1));
    assert!(e.is_none());
    assert_eq!(fi.Name(), v("f"));
    assert_eq!(fi.Mode().0 & ModeSymlink, ModeSymlink);
}

#[test]
fn remove_tries_unlink_then_rmdir() {
    let (c, s) = Remove(&v("d"));
    assert!(matches!(c, Call::Unlink { path } if path == b"d\0".to_vec()));
    match s.done(-21) {
        RemoveStep::Call(Call::Rmdir { path }, s2) => {
            assert_eq!(path, b"d\0".to_vec());
            assert!(matches!(s2.done(0), RemoveStep::Done(None)));
        }
        _ => panic!("no rmdir"),
    }
}

#[test]
fn remove_of_a_plain_file_reports_the_unlink_error() {
    let (_c, s) = Remove(&v("f"));
    match s.done(-13) {
        RemoveStep::Call(_, s2) => match s2.done(-(ENOTDIR as i64)) {
            RemoveStep::Done(e) => assert!(path_error(e, "remove", "f", 13)),
            _ => panic!("not done"),
        },
        _ => panic!("no rmdir"),
    }
}

#[test]
fn remove_of_a_full_directory_reports_the_rmdir_error() {
    let (_c, s) = Remove(&v("d"));
    match s.done(-21) {
        RemoveStep::Call(_, s2) => match s2.done(-39) {
            RemoveStep::Done(e) => assert!(path_error(e, "remove", "d", 39)),
            _ => panic!("not done"),
        },
        _ => panic!("no rmdir"),
    }
}

#[test]
fn rename_of_a_missing_file_over_a_directory_reports_the_missing_file() {
    let (c, s) = Rename(&v("missing"), &v("dir"));
    assert!(matches!(c, Call::Lstat { path } if path == b"dir\0".to_vec()));
    match s.done(0, &st(S_IFDIR | 0o755, 1, 1)) {
        RenameStep::Call(Call::Lstat { path }, s2) => {
            assert_eq!(path, b"missing\0".to_vec());
            match s2.done(-2, &st(0, 0, 0)) {
                RenameStep::Done(e) => assert!(link_error(e, "rename", "missing", "dir", 2)),
                _ => panic!("not done"),
            }
        }
        _ => panic!("old name not examined"),
    }
}

#[test]
fn rename_of_a_file_over_a_directory_is_refused() {
    let (_c, s) = Rename(&v("f"), &v("dir"));
    match s.done(0, &st(S_IFDIR | 0o755, 1, 1)) {
        RenameStep::Call(_, s2) => match s2.done(0, &st(0o100644, 1, 2)) {
            RenameStep::Done(e) => assert!(link_error(e, "rename", "f", "dir", EEXIST)),
            _ => panic!("not refused"),
        },
        _ => panic!("old name not examined"),
    }
}

#[test]
fn rename_moves_when_the_target_is_no_directory() {
    let (_c, s) = Rename(&v("a"), &v("b"));
    match s.done(-2, &st(0, 0, 0)) {
        RenameStep::Call(Call::Rename { old, new }, s2) => {
            assert_eq!(old, b"a\0".to_vec());
            assert_eq!(new, b"b\0".to_vec());
            assert!(matches!(s2.done(0, &st(0, 0, 0)), RenameStep::Done(None)));
        }
        _ => panic!("not moved"),
    }
}

#[test]
fn readlink_grows_until_the_target_fits() {
    let (c, s) = Readlink(&v("l"));
    assert!(matches!(c, Call::Readlink { size, .. } if size == 128));
    let full = vec![97u8; 128];
    match s.done(128, &full) {
        ReadlinkStep::Call(Call::Readlink { size, .. }, s2) => {
            assert_eq!(size, 256);
            let mut buf = vec![98u8; 256];
            buf[200] = 0;
            match s2.done(200, &buf) {
                ReadlinkStep::Done(t, None) => assert_eq!(t, vec![98u8; 200]),
                _ => panic!("not done"),
            }
        }
        _ => panic!("did not grow"),
    }
}

#[test]
fn readlink_failure_names_the_link() {
    let (_c, s) = Readlink(&v("l"));
    match s.done(-22, &[]) {
        ReadlinkStep::Done(t, e) => {
            assert!(t.is_empty());
            assert!(path_error(e, "readlink", "l", 22));
        }
        _ => panic!("not done"),
    }
}

#[test]
fn chtimes_before_the_epoch_has_no_negative_nanoseconds() {
    let (c, op) = Chtimes(Target::LinuxAmd64, &v("f"), Some(-1_500_000_000), None);
    match c {
        Call::Utimensat { dirfd, path, atime, mtime, flags } => {
            assert_eq!(dirfd, -100);
            assert_eq!(path, b"f\0".to_vec());
            assert_eq!(atime, Timespec { tv_sec: -2, tv_nsec: 500_000_000 });
            assert_eq!(mtime.tv_nsec, UTIME_OMIT);
            assert_eq!(flags, 0);
        }
        _ => panic!("not a utimensat"),
    }
    assert!(path_error(op.done(-1), "chtimes", "f", 1));
}

#[test]
fn chtimes_whole_seconds() {
    let (c, _op) = Chtimes(Target::LinuxAmd64, &v("f"), Some(3_000_000_007), Some(-2_000_000_000));
    match c {
        Call::Utimensat { atime, mtime, .. } => {
            assert_eq!(atime, Timespec { tv_sec: 3, tv_nsec: 7 });
            assert_eq!(mtime, Timespec { tv_sec: -2, tv_nsec: 0 });
        }
        _ => panic!("not a utimensat"),
    }
}

#[test]
fn chown_passes_minus_one_through() {
    let (c, op) = Chown(&v("f"), -1, 5);
    assert!(matches!(c, Call::Chown { uid: -1, gid: 5, .. }));
    assert!(op.done(0).is_none());
    let (c, op) = Lchown(&v("f"), 4, -1);
    assert!(matches!(c, Call::Lchown { uid: 4, gid: -1, .. }));
    assert!(path_error(op.done(-1), "lchown", "f", 1));
}

#[test]
fn simple_path_calls_report_their_operation() {
    let (c, op) = Chdir(&v("d"));
    assert!(matches!(c, Call::Chdir { path } if path == b"d\0".to_vec()));
    assert!(path_error(op.done(-20), "chdir", "d", 20));
    let (c, op) = Chmod(&v("f"), FileMode(0o600 | ModeSticky));
    assert!(matches!(c, Call::Chmod { mode: 0o1600, .. }));
    assert!(path_error(op.done(-1), "chmod", "f", 1));
    let (c, op) = Mkdir(&v("d"), FileMode(0o700));
    assert!(matches!(c, Call::Mkdir { mode: 0o700, .. }));
    assert!(path_error(op.done(-17), "mkdir", "d", 17));
    let (c, op) = Truncate(&v("f"), 9);
    assert!(matches!(c, Call::Truncate { size: 9, .. }));
    assert!(path_error(op.done(-21), "truncate", "f", 21));
}

#[test]
fn links_report_both_paths() {
    let (c, op) = Symlink(&v("t"), &v("l"));
    assert!(matches!(c, Call::Symlink { old, new } if old == b"t\0".to_vec() && new == b"l\0".to_vec()));
    assert!(link_error(op.done(-17), "symlink", "t", "l", 17));
    let (c, op) = Link(&v("a"), &v("b"));
    assert!(matches!(c, Call::Link { old, new } if old == b"a\0".to_vec() && new == b"b\0".to_vec()));
    assert!(op.done(0).is_none());
}

#[test]
fn executable_trims_the_deleted_suffix() {
    assert_eq!(Executable(&v("/bin/x (deleted)")), v("/bin/x"));
    assert_eq!(Executable(&v("/bin/x")), v("/bin/x"));
    assert_eq!(goish::os::executable_link(), v("/proc/self/exe"));
}

#[test]
fn getwd_prefers_a_pwd_that_is_the_same_directory() {
    match Getwd(&v("/home/link")) {
        GetwdStep::Call(Call::Stat { path }, s) => {
            assert_eq!(path, b".\0".to_vec());
            match s.done(0, &st(S_IFDIR, 5, 6), &[]) {
                GetwdStep::Call(Call::Stat { path }, s2) => {
                    assert_eq!(path, b"/home/link\0".to_vec());
                    match s2.done(0, &st(S_IFDIR, 5, 6), &[]) {
                        GetwdStep::Done(d, None) => assert_eq!(d, v("/home/link")),
                        _ => panic!("pwd not taken"),
                    }
                }
                _ => panic!("pwd not examined"),
            }
        }
        _ => panic!("dot not examined"),
    }
}

#[test]
fn getwd_reports_a_failed_stat_of_dot() {
    match Getwd(&v("/gone")) {
        GetwdStep::Call(_, s) => match s.done(-2, &st(0, 0, 0), &[]) {
            GetwdStep::Done(_, e) => assert!(path_error(e, "stat", ".", 2)),
            _ => panic!("not done"),
        },
        _ => panic!("dot not examined"),
    }
}

#[test]
fn getwd_asks_the_kernel_when_pwd_is_not_absolute() {
    match Getwd(&v("rel")) {
        GetwdStep::Call(Call::Getcwd { .. }, s) => {
            assert!(matches!(s, Getting::Asking { .. }));
            match s.done(5, &st(0, 0, 0), b"/tmp\0") {
                GetwdStep::Done(d, None) => assert_eq!(d, v("/tmp")),
                _ => panic!("not done"),
            }
        }
        _ => panic!("kernel not asked"),
    }
}

#[test]
fn getwd_keeps_the_errno() {
    match Getwd(&v("")) {
        GetwdStep::Call(_, s) => match s.done(-13, &st(0, 0, 0), &[]) {
            GetwdStep::Done(_, Some(Error::Syscall(x))) => {
                assert_eq!(x.Syscall, v("getwd"));
                assert!(matches!(x.Err, Cause::Errno(13)));
            }
            _ => panic!("not a syscall error"),
        },
        _ => panic!("kernel not asked"),
    }
}

#[test]
fn temp_dir_honours_the_environment() {
    assert_eq!(TempDir(Some(v("/var/tmp"))), v("/var/tmp"));
    assert_eq!(TempDir(None), v("/tmp"));
    assert_eq!(TempDir(Some(v(""))), v("/tmp"));
}

#[test]
fn user_directories_follow_the_environment() {
    let (d, e) = UserHomeDir(&v("/home/u"));
    assert_eq!(d, v("/home/u"));
    assert!(e.is_none());
    let (d, e) = UserHomeDir(&v(""));
    assert!(d.is_empty());
    assert!(matches!(e, Some(Error::Bare(Cause::Message(m))) if m == v("$HOME is not defined")));
    let (d, e) = UserCacheDir(&v(""), &v("/home/u"));
    assert_eq!(d, v("/home/u/.cache"));
    assert!(e.is_none());
    let (d, e) = UserConfigDir(&v("/cfg"), &v("/home/u"));
    assert_eq!(d, v("/cfg"));
    assert!(e.is_none());
    let (d, _e) = UserConfigDir(&v(""), &v("/home/u"));
    assert_eq!(d, v("/home/u/.config"));
}

#[test]
fn user_directories_refuse_nothing_and_relative() {
    let (_d, e) = UserCacheDir(&v(""), &v(""));
    assert!(matches!(e, Some(Error::Bare(Cause::Message(m))) if m == v("neither $XDG_CACHE_HOME nor $HOME are defined")));
    let (_d, e) = UserConfigDir(&v("rel"), &v("/home/u"));
    assert!(matches!(e, Some(Error::Bare(Cause::Message(m))) if m == v("path in $XDG_CONFIG_HOME is relative")));
}

#[test]
fn groups_are_counted_then_read() {
    let (c, s) = Getgroups();
    assert!(matches!(c, Call::Getgroups { size: 0 }));
    match s.done(2, &[]) {
        GroupsStep::Call(Call::Getgroups { size }, s2) => {
            assert_eq!(size, 2);
            match s2.done(2, &[10, 20]) {
                GroupsStep::Done(g, None) => assert_eq!(g, vec![10, 20]),
                _ => panic!("not done"),
            }
        }
        _ => panic!("not read"),
    }
    let (_c, s) = Getgroups();
    match s.done(-1, &[]) {
        GroupsStep::Done(g, Some(Error::Syscall(x))) => {
            assert!(g.is_empty());
            assert_eq!(x.Syscall, v("getgroups"));
        }
        _ => panic!("no error"),
    }
}

#[test]
fn pipes_are_closed_on_exec() {
    assert!(matches!(pipe_call(Target::LinuxAmd64), Call::Pipe2 { flags } if flags == O_CLOEXEC));
    let (r, w, e) = Pipe(0, 3, 4);
    assert!(e.is_none());
    assert_eq!(r.fd, 3);
    assert_eq!(w.fd, 4);
    let (_r, _w, e) = Pipe(-24, 0, 0);
    assert!(matches!(e, Some(Error::Syscall(x)) if matches!(x.Err, Cause::Errno(24))));
}

#[test]
fn hostname_stops_at_the_nul() {
    let (h, e) = Hostname(0, b"box\0junk");
    assert_eq!(h, v("box"));
    assert!(e.is_none());
    let (h, e) = Hostname(-14, b"");
    assert!(h.is_empty());
    assert!(matches!(e, Some(Error::Syscall(_))));
}

#[test]
fn standard_streams_have_their_descriptors() {
    assert_eq!(Stdin().fd, 0);
    assert_eq!(Stdout().fd, 1);
    assert_eq!(Stderr().fd, 2);
    assert_eq!(Stdout().name, v("/dev/stdout"));
    assert!(matches!(Exit(3), Call::Exit { code: 3 }));
    assert!(IsPathSeparator(47));
    assert!(!IsPathSeparator(92));
}

#[test]
fn numbers_are_those_of_the_system() {
    let t = Target::DarwinArm64;
    let (c, _op) = Create(t, &v("x"));
    assert!(matches!(c, Call::Open { flags, .. } if flags == 2 | 0x200 | 0x400 | 0x100_0000));
    let (c, _op) = OpenFile(t, &v("x"), 1 | t.numbers().o_append, FileMode(0o600));
    assert!(matches!(c, Call::Open { flags, .. } if flags == 1 | 0x8 | 0x100_0000));
    assert!(matches!(pipe_call(t), Call::Pipe2 { flags: 0x100_0000 }));
    match Chtimes(t, &v("f"), None, Some(1_000_000_002)).0 {
        Call::Utimensat { dirfd, atime, mtime, .. } => {
            assert_eq!((dirfd, atime.tv_sec, atime.tv_nsec), (-2, -2, -2));
            assert_eq!((mtime.tv_sec, mtime.tv_nsec), (1, 2));
        }
        _ => panic!("no call"),
    }
    let n = Target::LinuxArm64.numbers();
    assert_eq!((n.o_create, n.o_excl, n.o_trunc, n.o_append), (0o100, 0o200, 0o1000, 0o2000));
    assert_eq!((n.o_sync, n.o_cloexec, n.at_fdcwd, n.eagain, n.nanotime_clock), (0o4010000, O_CLOEXEC, -100, 11, 1));
}
