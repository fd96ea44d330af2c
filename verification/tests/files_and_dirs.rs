use goish::dir::{child, dir_entries, dir_opened, InfoStep, Listing, ReaddirStep};
use goish::dirfs::{DirFS, DirFsFile, ValidPath};
use goish::errors::{Cause, Error};
use goish::file::{File, TransferStep};
use goish::fileinfo::{FileMode, ModeDir};
use goish::readfile::{slurp, write_file_result, ReadFile, Slurp, SlurpStep, WriteFile};
use goish::syscall::{Call, Stat_t, Target};

fn v(s: &str) -> Vec<u8> {
    s.as_bytes().to_vec()
}

fn st(mode: u32, size: i64) -> Stat_t {
    Stat_t { st_dev: 1, st_ino: 1, st_mode: mode, st_size: size, ..Stat_t::default() }
}

fn file(fd: i64) -> File {
    File::NewFile(fd, v("f"))
}

fn is_path(e: &Error, op: &str, code: i32) -> bool {
    match e {
        Error::Path(p) => p.Op == v(op) && p.Path == v("f") && matches!(p.Err, Cause::Errno(c) if c == code),
        _ => false,
    }
}

/// A directory record: inode, offset, length, type, name.
fn record(ino: u64, typ: u8, name: &str) -> Vec<u8> {
    let mut r = Vec::new();
    r.extend_from_slice(&ino.to_le_bytes());
    r.extend_from_slice(&0u64.to_le_bytes());
    let len = (19 + name.len() + 1 + 7) / 8 * 8;
    r.extend_from_slice(&(len as u16).to_le_bytes());
    r.push(typ);
    r.extend_from_slice(name.as_bytes());
    while r.len() < len {
        r.push(0);
    }
    r
}

fn block(parts: &[Vec<u8>]) -> Vec<u8> {
    let mut b = Vec::new();
    for p in parts {
        b.extend_from_slice(p);
    }
    b
}

#[test]
fn read_at_the_end_is_eof() {
    let f = file(3);
    let (c, op) = f.Read(10);
    assert!(matches!(c, Call::Read { fd: 3, len: 10 }));
    let (n, e) = op.read(0);
    assert_eq!(n, 0);
    assert!(matches!(e, Some(Error::Eof)));
    let (_c, op) = f.Read(10);
    let (n, e) = op.read(4);
    assert_eq!(n, 4);
    assert!(e.is_none());
    let (_c, op) = f.Read(10);
    let (_n, e) = op.read(-5);
    assert!(is_path(&e.unwrap(), "read", 5));
}

#[test]
fn write_goes_on_after_a_short_write() {
    let f = file(3);
    match f.Write(10) {
        TransferStep::Call(Call::Write { start, len, .. }, t) => {
            assert_eq!((start, len), (0, 10));
            match t.wrote(4) {
                TransferStep::Call(Call::Write { start, len, .. }, t2) => {
                    assert_eq!((start, len), (4, 6));
                    match t2.wrote(6) {
                        TransferStep::Done(n, e) => {
                            assert_eq!(n, 10);
                            assert!(e.is_none());
                        }
                        _ => panic!("not done"),
                    }
                }
                _ => panic!("did not go on"),
            }
        }
        _ => panic!("no write"),
    }
}

#[test]
fn write_error_keeps_what_was_written() {
    match file(3).WriteString(&v("hello")) {
        TransferStep::Call(_, t) => match t.wrote(2) {
            TransferStep::Call(_, t2) => match t2.wrote(-28) {
                TransferStep::Done(n, Some(e)) => {
                    assert_eq!(n, 2);
                    assert!(is_path(&e, "write", 28));
                }
                _ => panic!("no error"),
            },
            _ => panic!("did not go on"),
        },
        _ => panic!("no write"),
    }
}

#[test]
fn read_at_fills_or_ends() {
    match file(3).ReadAt(6, 100) {
        TransferStep::Call(Call::Pread { start, len, at, .. }, t) => {
            assert_eq!((start, len, at), (0, 6, 100));
            match t.read(2) {
                TransferStep::Call(Call::Pread { start, len, at, .. }, t2) => {
                    assert_eq!((start, len, at), (2, 4, 102));
                    match t2.read(0) {
                        TransferStep::Done(n, Some(Error::Eof)) => assert_eq!(n, 2),
                        _ => panic!("not at the end"),
                    }
                }
                _ => panic!("did not go on"),
            }
        }
        _ => panic!("no read"),
    }
}

#[test]
fn closed_files_are_refused() {
    let mut f = file(3);
    let (c, op) = f.Close().unwrap();
    assert!(matches!(c, Call::Close { fd: 3 }));
    assert!(op.done(0).is_none());
    assert_eq!(f.fd, -1);
    assert!(f.Close().is_err());
    assert!(f.Sync().is_err());
    assert!(f.Chmod(FileMode(0o600)).is_err());
    assert!(f.Truncate(0).is_err());
    assert!(f.Chdir().is_err());
    assert!(f.WriteAt(1, 0).is_err());
}

#[test]
fn open_files_make_their_calls() {
    let f = file(5);
    assert!(matches!(f.Sync(), Ok((Call::Fsync { fd: 5 }, _))));
    assert!(matches!(f.Chmod(FileMode(0o600)), Ok((Call::Fchmod { fd: 5, mode: 0o600 }, _))));
    assert!(matches!(f.Truncate(7), Ok((Call::Ftruncate { fd: 5, size: 7 }, _))));
    assert!(matches!(f.Seek(9, 1), (Call::Lseek { fd: 5, offset: 9, whence: 1 }, _)));
    assert!(matches!(f.Stat(), (Call::Fstat { fd: 5 }, _)));
    assert_eq!(f.Fd(), 5);
    assert_eq!(f.Name(), v("f"));
}

#[test]
fn a_listing_skips_dots() {
    let mut d = file(4);
    let mut run: Listing = d.Readdirnames(-1).unwrap();
    assert!(matches!(d.readdir(&mut run), ReaddirStep::Fill(Call::Getdents { fd: 4, .. })));
    let mut b = block(&[record(1, 4, "."), record(2, 4, ".."), record(0, 8, "gone"), record(9, 8, "b"), record(8, 8, "a")]);
    let n = b.len() as i64;
    b.resize(8192, 0);
    let (more, e) = d.readdir_filled(n, &b);
    assert!(more && e.is_none());
    assert!(matches!(d.readdir(&mut run), ReaddirStep::Fill(_)));
    let (more, e) = d.readdir_filled(0, &[]);
    assert!(!more && e.is_none());
    assert_eq!(run.names, vec![v("gone"), v("b"), v("a")]);
    assert!(run.readdir_end(None).is_none());
}

#[test]
fn a_bounded_listing_stops_and_goes_on() {
    let mut d = file(4);
    let mut run = d.Readdirnames(1).unwrap();
    assert!(matches!(d.readdir(&mut run), ReaddirStep::Fill(_)));
    let mut b = block(&[record(9, 8, "b"), record(8, 8, "a")]);
    let n = b.len() as i64;
    b.resize(8192, 0);
    d.readdir_filled(n, &b);
    assert!(matches!(d.readdir(&mut run), ReaddirStep::End));
    assert_eq!(run.names, vec![v("b")]);
    let mut run = d.Readdirnames(1).unwrap();
    assert!(matches!(d.readdir(&mut run), ReaddirStep::End));
    assert_eq!(run.names, vec![v("a")]);
    let mut run = d.Readdirnames(1).unwrap();
    assert!(matches!(d.readdir(&mut run), ReaddirStep::Fill(_)));
    d.readdir_filled(0, &[]);
    assert!(matches!(run.readdir_end(None), Some(Error::Eof)));
}

/// Lists with the kernel's blocks given one after the other.
fn list(d: &mut File, run: &mut Listing, blocks: &mut Vec<Vec<u8>>) -> Option<Error> {
    loop {
        match d.readdir(run) {
            ReaddirStep::Fill(_) => {
                let b = if blocks.is_empty() { Vec::new() } else { blocks.remove(0) };
                let (more, e) = d.readdir_filled(b.len() as i64, &b);
                if !more {
                    return run.readdir_end(e);
                }
            }
            ReaddirStep::Examine(_) => {
                let (more, e) = run.readdir_examined(&d.name, 0, &st(0o100600, 1));
                if !more {
                    return run.readdir_end(e);
                }
            }
            ReaddirStep::End => return run.readdir_end(None),
        }
    }
}

fn three_blocks() -> Vec<Vec<u8>> {
    vec![
        block(&[record(1, 4, "."), record(2, 8, "a"), record(3, 8, "b")]),
        block(&[record(4, 8, "c")]),
        block(&[record(5, 8, "d"), record(6, 4, ".."), record(7, 8, "e")]),
    ]
}

#[test]
fn batches_over_several_blocks_make_the_listing() {
    let mut d = file(4);
    let mut run = d.Readdirnames(0).unwrap();
    assert!(list(&mut d, &mut run, &mut three_blocks()).is_none());
    let all = run.names;
    assert_eq!(all, vec![v("a"), v("b"), v("c"), v("d"), v("e")]);
    let mut run = d.Readdirnames(0).unwrap();
    assert!(list(&mut d, &mut run, &mut Vec::new()).is_none());
    assert!(run.names.is_empty());
    for k in 1..7i64 {
        let mut d = file(4);
        let mut blocks = three_blocks();
        let mut got: Vec<Vec<u8>> = Vec::new();
        loop {
            let mut run = d.Readdirnames(k).unwrap();
            match list(&mut d, &mut run, &mut blocks) {
                Some(Error::Eof) => break,
                None => {
                    assert!(run.names.len() as i64 == k || got.len() + run.names.len() == all.len());
                    got.extend(run.names);
                }
                _ => panic!("failed"),
            }
        }
        assert_eq!(got, all);
        let mut run = d.Readdirnames(k).unwrap();
        assert!(matches!(list(&mut d, &mut run, &mut blocks), Some(Error::Eof)));
    }
}

#[test]
fn examined_entries_come_in_batches_too() {
    let mut d = file(4);
    let mut blocks = vec![block(&[record(1, 0, "a"), record(2, 0, "b")]), block(&[record(3, 8, "c")])];
    let mut run = d.ReadDir(2).unwrap();
    assert!(list(&mut d, &mut run, &mut blocks).is_none());
    assert_eq!(run.dirents.len(), 2);
    let mut run = d.ReadDir(2).unwrap();
    assert!(list(&mut d, &mut run, &mut blocks).is_none());
    assert_eq!(run.dirents.len(), 1);
    assert_eq!(run.dirents[0].Name(), v("c"));
    let mut run = d.ReadDir(2).unwrap();
    assert!(matches!(list(&mut d, &mut run, &mut blocks), Some(Error::Eof)));
}

#[test]
fn a_failed_read_of_records_leaves_nothing_behind() {
    let mut d = file(4);
    let mut blocks = vec![block(&[record(2, 8, "a")])];
    let mut run = d.Readdirnames(1).unwrap();
    assert!(list(&mut d, &mut run, &mut blocks).is_none());
    let mut run = d.Readdirnames(1).unwrap();
    assert!(matches!(d.readdir(&mut run), ReaddirStep::Fill(_)));
    let (more, e) = d.readdir_filled(-5, &[]);
    assert!(!more && e.is_some());
    let mut run = d.Readdirnames(1).unwrap();
    assert!(matches!(list(&mut d, &mut run, &mut blocks), Some(Error::Eof)));
}

#[test]
fn a_record_without_a_length_ends_the_listing_or_its_block() {
    let mut broken = record(3, 8, "x");
    broken[16] = 0;
    broken[17] = 0;
    let blocks = vec![block(&[record(2, 8, "a"), broken]), block(&[record(4, 8, "b")])];
    let mut d = file(4);
    let mut run = d.Readdirnames(0).unwrap();
    assert!(list(&mut d, &mut run, &mut blocks.clone()).is_none());
    assert_eq!(run.names, vec![v("a")]);
    let mut d = file(4);
    let mut run = dir_opened(&mut d);
    assert!(list(&mut d, &mut run, &mut blocks.clone()).is_none());
    let names: Vec<Vec<u8>> = dir_entries(&run, false).iter().map(|e| e.Name()).collect();
    assert_eq!(names, vec![v(""), v("a"), v("b")]);
}

#[test]
fn a_short_record_at_the_end_has_an_empty_name() {
    let mut short = vec![0u8; 18];
    short[16] = 18;
    let mut d = file(4);
    let mut run = d.Readdirnames(0).unwrap();
    assert!(list(&mut d, &mut run, &mut vec![block(&[record(2, 8, "a"), short.clone()])]).is_none());
    assert_eq!(run.names, vec![v("a"), v("")]);
    let mut d = file(4);
    let mut run = d.Readdirnames(0).unwrap();
    short[16] = 19;
    assert!(list(&mut d, &mut run, &mut vec![block(&[record(2, 8, "a"), short])]).is_none());
    assert_eq!(run.names, vec![v("a")]);
}

#[test]
fn the_kernel_is_asked_for_a_whole_buffer() {
    let mut d = file(4);
    let mut run = d.Readdirnames(0).unwrap();
    assert!(matches!(d.readdir(&mut run), ReaddirStep::Fill(Call::Getdents { fd: 4, len: 8192 })));
    let mut d = file(5);
    let mut run = dir_opened(&mut d);
    assert!(matches!(d.readdir(&mut run), ReaddirStep::Fill(Call::Getdents { fd: 5, len: 4096 })));
}

#[test]
fn a_closed_file_refuses_any_position() {
    let mut f = file(3);
    let _ = f.Close();
    assert!(matches!(f.ReadAt(10, i64::MAX), TransferStep::Done(0, Some(Error::Path(_)))));
}

#[test]
fn a_directory_is_listed_in_byte_order() {
    let mut d = file(4);
    let mut run = dir_opened(&mut d);
    assert!(matches!(d.readdir(&mut run), ReaddirStep::Fill(_)));
    let mut b = block(&[record(9, 8, "b"), record(8, 4, "a"), record(7, 8, "B")]);
    let n = b.len() as i64;
    b.resize(8192, 0);
    d.readdir_filled(n, &b);
    assert!(matches!(d.readdir(&mut run), ReaddirStep::Fill(_)));
    d.readdir_filled(0, &[]);
    let entries = dir_entries(&run, false);
    let names: Vec<Vec<u8>> = entries.iter().map(|e| e.Name()).collect();
    assert_eq!(names, vec![v("B"), v("a"), v("b")]);
    assert!(entries[1].IsDir());
    assert_eq!(entries[1].Type().0, ModeDir);
    match entries[1].Info() {
        InfoStep::Ask(Call::Lstat { path }, _) => assert_eq!(path, b"f/a\0".to_vec()),
        _ => panic!("no question"),
    }
}

#[test]
fn infos_are_examined_one_by_one() {
    let mut d = file(4);
    let mut run = d.Readdir(-1).unwrap();
    assert!(matches!(d.readdir(&mut run), ReaddirStep::Fill(_)));
    let mut b = block(&[record(9, 8, "b")]);
    let n = b.len() as i64;
    b.resize(8192, 0);
    d.readdir_filled(n, &b);
    match d.readdir(&mut run) {
        ReaddirStep::Examine(Call::Lstat { path }) => assert_eq!(path, b"f/b\0".to_vec()),
        _ => panic!("not examined"),
    }
    let (go_on, e) = run.readdir_examined(&v("f"), 0, &st(0o100600, 3));
    assert!(go_on && e.is_none());
    assert_eq!(run.infos.len(), 1);
    assert_eq!(run.infos[0].Size(), 3);
}

#[test]
fn children_have_one_slash() {
    assert_eq!(child(&v("d"), &v("n")), v("d/n"));
}

#[test]
fn read_file_does_not_trust_the_size() {
    let (c, op) = ReadFile(Target::LinuxAmd64, &v("f"));
    assert!(matches!(c, Call::Open { .. }));
    let f = op.done(3).unwrap();
    let s: Slurp = slurp(f, 0, &st(0o100644, 0));
    let want = match s.next() {
        Call::Read { len, .. } => len,
        _ => panic!("no read"),
    };
    assert!(want >= 6);
    match s.got(6, b"Linux\n") {
        SlurpStep::More(s2) => match s2.got(0, b"") {
            SlurpStep::Done(data, e, _f) => {
                assert_eq!(data, v("Linux\n"));
                assert!(e.is_none());
            }
            _ => panic!("not done"),
        },
        _ => panic!("did not go on"),
    }
}

#[test]
fn read_file_keeps_what_came_before_an_error() {
    let s = slurp(file(3), 0, &st(0o100644, 1000));
    match s.got(2, b"ab") {
        SlurpStep::More(s2) => match s2.got(-5, b"") {
            SlurpStep::Done(data, Some(e), _f) => {
                assert_eq!(data, v("ab"));
                assert!(is_path(&e, "read", 5));
            }
            _ => panic!("no error"),
        },
        _ => panic!("did not go on"),
    }
}

#[test]
fn a_written_file_is_read_back() {
    let data: Vec<u8> = (0..5000u32).map(|i| (i * 7) as u8).collect();
    let mut held = vec![1u8; 9000];
    let (call, op) = WriteFile(Target::LinuxAmd64, &v("f"), FileMode(0o600));
    match call {
        Call::Open { flags, .. } if flags & 0o1000 != 0 => held.clear(),
        _ => panic!("not emptied"),
    }
    let mut step = op.done(3).unwrap().Write(data.len());
    let written = loop {
        step = match step {
            TransferStep::Call(Call::Write { start, len, .. }, t) => {
                let n = len.min(1234);
                held.extend_from_slice(&data[start..start + n]);
                t.wrote(n as i64)
            }
            TransferStep::Done(n, e) => {
                assert!(e.is_none());
                break n;
            }
            _ => panic!("no write"),
        };
    };
    assert_eq!(written, 5000);
    for size in [0, 100, 5000, 7000] {
        let mut s = slurp(file(4), 0, &st(0o100600, size));
        let mut at = 0;
        let back = loop {
            let want = match s.next() {
                Call::Read { len, .. } => len,
                _ => panic!("no read"),
            };
            let n = want.min(999).min(held.len() - at);
            s = match s.got(n as i64, &held[at..at + n]) {
                SlurpStep::More(next) => next,
                SlurpStep::Done(d, e, _f) => {
                    assert!(e.is_none());
                    break d;
                }
            };
            at += n;
        };
        assert_eq!(back, data);
    }
}

#[test]
fn write_file_truncates_and_reports_the_first_error() {
    let (c, _op) = WriteFile(Target::LinuxAmd64, &v("f"), FileMode(0o600));
    assert!(matches!(c, Call::Open { flags, mode: 0o600, .. } if flags == 1 | 0o100 | 0o1000 | 0o2000000));
    assert!(write_file_result(None, None).is_none());
    assert!(matches!(write_file_result(Some(Error::Eof), Some(Error::Bare(Cause::Closed))), Some(Error::Eof)));
    assert!(matches!(write_file_result(None, Some(Error::Bare(Cause::Closed))), Some(Error::Bare(Cause::Closed))));
}

#[test]
fn valid_paths() {
    for p in [".", "a", "a/b", "a/..b", "a/.b", "..."] {
        assert!(ValidPath(&v(p)), "{}", p);
    }
    for p in ["", "/", "/a", "a/", "a//b", "..", "a/..", "./a", "a/./b", "../a"] {
        assert!(!ValidPath(&v(p)), "{}", p);
    }
}

#[test]
fn a_rooted_file_system_needs_a_root() {
    match DirFS(v("")).Open(Target::LinuxAmd64, &v("etc/passwd")) {
        Err(Error::Path(p)) => {
            assert_eq!(p.Op, v("open"));
            assert!(matches!(p.Err, Cause::Message(m) if m == v("os: DirFS with empty root")));
        }
        _ => panic!("opened"),
    }
}

#[test]
fn a_rooted_file_system_refuses_nul_and_escape() {
    let fs = DirFS(v("/srv"));
    for bad in ["f\0ignored", "../x", "/x", "a/../../x"] {
        match fs.ReadFile(Target::LinuxAmd64, &v(bad)) {
            Err(Error::Path(p)) => {
                assert_eq!(p.Op, v("readfile"));
                assert_eq!(p.Path, v(bad));
                assert!(matches!(p.Err, Cause::Invalid));
            }
            _ => panic!("read"),
        }
    }
    assert!(fs.Stat(&v("..")).is_err());
    assert!(fs.ReadDir(Target::LinuxAmd64, &v("a/..")).is_err());
}

#[test]
fn a_rooted_file_system_joins_below_the_root() {
    let fs = DirFS(v("/srv"));
    assert!(matches!(fs.Open(Target::LinuxAmd64, &v("a/b")), Ok((Call::Open { path, .. }, _)) if path == b"/srv/a/b\0".to_vec()));
    assert!(matches!(fs.ReadDir(Target::LinuxAmd64, &v(".")), Ok((Call::Open { path, .. }, _)) if path == b"/srv\0".to_vec()));
    assert!(matches!(DirFS(v("/srv/")).Stat(&v("a")), Ok((Call::Stat { path }, _)) if path == b"/srv/a\0".to_vec()));
    assert_eq!(fs.join("open", &v("x")).unwrap(), v("/srv/x"));
}

#[test]
fn a_rooted_file_closes_once() {
    let mut f = DirFsFile { inner: Some(file(6)) };
    assert!(matches!(f.Read(3), Ok((Call::Read { fd: 6, len: 3 }, _))));
    assert!(matches!(f.Stat(), Ok((Call::Fstat { fd: 6 }, _))));
    assert!(matches!(f.Close(), Ok((Call::Close { fd: 6 }, _))));
    assert!(matches!(f.Close(), Err(Error::Bare(Cause::Closed))));
    assert!(matches!(f.Read(3), Err(Error::Bare(Cause::Closed))));
    assert!(matches!(f.Stat(), Err(Error::Bare(Cause::Closed))));
}

#[test]
fn file_errors_name_the_file() {
    let f = file(3);
    assert!(is_path(&f.wrapErr("read", Error::Bare(Cause::Errno(5))), "read", 5));
    assert!(matches!(f.wrapErr("read", Error::Eof), Error::Eof));
    assert!(is_path(&f.fdErr("seek", -29), "seek", 29));
    let closed = file(-1);
    assert!(matches!(closed.fdErr("seek", -9), Error::Path(p) if matches!(p.Err, Cause::Closed)));
}
