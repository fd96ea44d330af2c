use goish::dwarf_util::{read_cstr, read_initial_length, read_sleb, read_u16, read_uleb};
use goish::line::{build, FileEntry, LineRow, Program, Programs, END_SEQUENCE};
use goish::macho::{build_symtab, dsym_dir, list_dir, load_dsym_lines, match_dsym, name16_eq, parse_load_commands, plan_image, rd_u32, rd_u64, Section};
use goish::sort::stable_order;
use goish::symbolize::{init, load, load_elf, raw_name, symbolize, MapEvent, MapFile, SymInfo, Tables};
use goish::symtab::{name_at, SymRange, SymTable};

fn v(s: &str) -> Vec<u8> {
    s.as_bytes().to_vec()
}

fn row(pc: u64, line: u32, file_idx: u32) -> LineRow {
    LineRow { pc, line, program_id: 0, file_idx }
}

fn programs(rows: Vec<LineRow>) -> Programs {
    Programs {
        rows,
        programs: vec![Program {
            include_dirs: vec![v("src"), v("/abs")],
            files: vec![
                FileEntry { dir_idx: 0, name: v("a.rs") },
                FileEntry { dir_idx: 1, name: v("b.rs") },
                FileEntry { dir_idx: 2, name: v("c.rs") },
                FileEntry { dir_idx: 1, name: v("/root/d.rs") },
                FileEntry { dir_idx: 9, name: v("e.rs") },
            ],
            comp_dir: v("/work"),
        }],
    }
}

#[test]
fn lookup_finds_the_covering_row() {
    let p = programs(vec![row(10, 1, 1), row(20, 2, 1), row(30, 0, END_SEQUENCE)]);
    assert_eq!(p.lookup(10).unwrap().line, 1);
    assert_eq!(p.lookup(19).unwrap().line, 1);
    assert_eq!(p.lookup(25).unwrap().line, 2);
    assert!(p.lookup(9).is_none());
}

#[test]
fn lookup_past_a_sequence_finds_nothing() {
    let p = programs(vec![row(10, 1, 1), row(30, 0, END_SEQUENCE), row(50, 5, 1)]);
    assert!(p.lookup(30).is_none());
    assert!(p.lookup(49).is_none());
    assert_eq!(p.lookup(50).unwrap().line, 5);
    let q = programs(vec![row(10, 1, 1), row(30, 0, END_SEQUENCE)]);
    assert!(q.lookup(u64::MAX).is_none());
}

#[test]
fn lookup_at_a_seam_finds_the_new_sequence() {
    let p = programs(vec![row(10, 1, 1), row(30, 0, END_SEQUENCE), row(30, 7, 1)]);
    assert_eq!(p.lookup(30).unwrap().line, 7);
}

#[test]
fn paths_are_anchored() {
    let p = programs(vec![]);
    assert_eq!(p.path_of(0, 1), v("/work/a.rs"));
    assert_eq!(p.path_of(0, 2), v("/work/src/b.rs"));
    assert_eq!(p.path_of(0, 3), v("/abs/c.rs"));
    assert_eq!(p.path_of(0, 4), v("/root/d.rs"));
    assert_eq!(p.path_of(0, 5), v("e.rs"));
    assert!(p.path_of(0, 0).is_empty());
    assert!(p.path_of(0, 6).is_empty());
    assert!(p.path_of(1, 1).is_empty());
}

#[test]
fn paths_are_cut_to_the_room() {
    let p = programs(vec![]);
    let mut out = [1u8; 8];
    assert_eq!(p.resolve_file(0, 2, &mut out), 8);
    assert_eq!(&out, b"/work/sr");
    let mut out = [1u8; 16];
    assert_eq!(p.resolve_file(0, 1, &mut out), 10);
    assert_eq!(&out[..11], b"/work/a.rs\x01");
}

/// A line program of version four with one directory and one file.
fn line_program(ops: &[u8]) -> Vec<u8> {
    let mut header: Vec<u8> = vec![1, 1, 1, 0xfb, 14, 13];
    header.extend_from_slice(&[0, 1, 1, 1, 1, 0, 0, 0, 1, 0, 0, 1]);
    header.extend_from_slice(b"dir\0\0");
    header.extend_from_slice(b"m.rs\0");
    header.extend_from_slice(&[1, 0, 0, 0]);
    let mut body: Vec<u8> = vec![4, 0];
    body.extend_from_slice(&(header.len() as u32).to_le_bytes());
    body.extend_from_slice(&header);
    body.extend_from_slice(ops);
    let mut out = (body.len() as u32).to_le_bytes().to_vec();
    out.extend_from_slice(&body);
    out
}

#[test]
fn a_line_program_is_run() {
    let mut ops = vec![0, 9, 2];
    ops.extend_from_slice(&0x1000u64.to_le_bytes());
    ops.push(1); // copy: line 1
    ops.extend_from_slice(&[3, 9]); // line 10
    ops.extend_from_slice(&[2, 4]); // address + 4
    ops.push(1);
    ops.push(13 + 5 + 14 * 2); // special: address + 2, line + 0
    ops.extend_from_slice(&[2, 16, 0, 1, 1]); // end of sequence
    let p = build(&line_program(&ops), &[(0, v("/w"))]);
    assert_eq!(p.programs.len(), 1);
    assert_eq!(p.lookup(0x1000).unwrap().line, 1);
    assert_eq!(p.lookup(0x1004).unwrap().line, 10);
    assert_eq!(p.lookup(0x1006).unwrap().line, 10);
    assert!(p.lookup(0x1016).is_none());
    assert_eq!(p.path_of(0, 1), v("/w/dir/m.rs"));
}

#[test]
fn a_broken_line_program_is_skipped() {
    let mut bad = line_program(&[]);
    bad[4] = 5;
    assert!(build(&bad, &[]).programs.is_empty());
    assert!(build(&[], &[]).programs.is_empty());
    assert!(build(&[9, 0, 0, 0, 1], &[]).programs.is_empty());
}

#[test]
fn numbers_are_read_in_groups() {
    let mut off = 0usize;
    assert_eq!(read_uleb(&[0xe5, 0x8e, 0x26], &mut off), Some(624485));
    assert_eq!(off, 3);
    let mut off = 0usize;
    assert_eq!(read_sleb(&[0x9b, 0xf1, 0x59], &mut off), Some(-624485));
    let mut off = 0usize;
    assert_eq!(read_uleb(&[0x80], &mut off), None);
    let mut off = 0usize;
    assert_eq!(read_cstr(b"ab\0c", &mut off), Some(v("ab")));
    assert_eq!(off, 3);
    let mut off = 0usize;
    assert_eq!(read_u16(&[0x34, 0x12], &mut off), Some(0x1234));
    let mut off = 0usize;
    assert_eq!(read_initial_length(&[0xff, 0xff, 0xff, 0xff, 8, 0, 0, 0, 0, 0, 0, 0], &mut off), Some((8, true)));
    assert_eq!(rd_u32(&[1, 0, 0, 0], 0), Some(1));
    assert_eq!(rd_u64(&[1, 0, 0, 0], 0), None);
}

#[test]
fn a_stable_order_keeps_equal_keys_in_place() {
    let keys: Vec<u128> = vec![3, 1, 3, 0, 1];
    assert_eq!(stable_order(&keys), vec![3, 1, 4, 0, 2]);
}

fn tables() -> Tables {
    Tables {
        symtab: SymTable { ranges: vec![SymRange { start: 0x100, end: 0x200, name_off: 1 }] },
        strtab: b"\0main\0".to_vec(),
        lines: programs(vec![row(0x100, 3, 1), row(0x200, 0, END_SEQUENCE)]),
        slide: 0x1000,
    }
}

#[test]
fn symbols_are_found_by_range() {
    let t = tables();
    assert_eq!(t.symtab.lookup(0x1ff).unwrap().start, 0x100);
    assert!(t.symtab.lookup(0x200).is_none());
    assert!(t.symtab.lookup(0xff).is_none());
    assert_eq!(name_at(&t.strtab, 1), v("main"));
    assert!(name_at(&t.strtab, 99).is_empty());
    assert_eq!(raw_name(&t, 0x1110), v("main"));
}

#[test]
fn an_address_gets_a_name_a_file_and_a_line() {
    let t = Some(tables());
    let mut info = SymInfo::default();
    assert!(symbolize(&t, 0x1110, &v("main"), &mut info));
    assert_eq!(&info.fn_name[..info.fn_name_len], b"main");
    assert_eq!(info.fn_offset, 0x10);
    assert_eq!(&info.file[..info.file_len], b"/work/a.rs");
    assert_eq!(info.line, 3);
    let mut none = SymInfo::default();
    assert!(!symbolize(&t, 0x10, &vec![], &mut none));
    assert!(!symbolize(&None, 0x1110, &vec![], &mut none));
}

#[test]
fn tables_are_loaded_once() {
    let mut t: Option<Tables> = None;
    init(&mut t, Some(tables()));
    assert!(t.is_some());
    let mut other = tables();
    other.slide = 7;
    init(&mut t, Some(other));
    assert_eq!(t.unwrap().slide, 0x1000);
}

#[test]
fn a_mapped_file_is_closed() {
    let s = MapFile::Opening.next(MapEvent::Opened { fd: 4 });
    assert!(matches!(s, MapFile::Sizing { fd: 4 }));
    let s = s.next(MapEvent::Sized { rc: 0, size: 100 });
    assert!(matches!(s, MapFile::Mapping { fd: 4, size: 100 }));
    let s = s.next(MapEvent::Mapped { base: 4096 });
    assert!(matches!(s, MapFile::Closing { fd: 4, result: Some((4096, 100)) }));
    assert!(matches!(s.next(MapEvent::Closed), MapFile::Done { result: Some((4096, 100)) }));
    assert!(matches!(MapFile::Opening.next(MapEvent::Opened { fd: -2 }), MapFile::Done { result: None }));
    let s = MapFile::Sizing { fd: 4 }.next(MapEvent::Sized { rc: -1, size: 0 });
    assert!(matches!(s, MapFile::Closing { fd: 4, result: None }));
}

#[test]
fn load_commands_are_parsed() {
    assert!(parse_load_commands(&[0u8; 40]).is_none());
    let mut image = vec![0u8; 32];
    image[0..4].copy_from_slice(&0xfeed_facfu32.to_le_bytes());
    image[16..20].copy_from_slice(&1u32.to_le_bytes());
    image[20..24].copy_from_slice(&24u32.to_le_bytes());
    image.extend_from_slice(&0x1bu32.to_le_bytes());
    image.extend_from_slice(&24u32.to_le_bytes());
    let uuid: Vec<u8> = (1..17).collect();
    image.extend_from_slice(&uuid);
    let c = parse_load_commands(&image).unwrap();
    assert_eq!(c.uuid, Some(uuid));
    assert!(c.segments.is_empty());
    assert!(plan_image(&image, 0).is_none());
}

#[test]
fn section_names_are_padded() {
    assert!(name16_eq(b"__text\0\0\0\0\0\0\0\0\0\0", b"__text"));
    assert!(!name16_eq(b"__textx\0\0\0\0\0\0\0\0\0", b"__text"));
    assert_eq!(dsym_dir(b"/a/b"), v("/a/b.dSYM/Contents/Resources/DWARF"));
}

#[test]
fn a_symbol_table_is_built_from_its_entries() {
    let strtab = b"\0_a\0_b\0".to_vec();
    let mut nlists = Vec::new();
    for (off, addr) in [(4u32, 0x140u64), (1, 0x100)] {
        nlists.extend_from_slice(&off.to_le_bytes());
        nlists.extend_from_slice(&[0x0f, 1, 0, 0]);
        nlists.extend_from_slice(&addr.to_le_bytes());
    }
    let sections = vec![Section { segname: v("__TEXT"), sectname: v("__text"), addr: 0x100, size: 0x100, offset: 0, flags: 0x8000_0400 }];
    let t = build_symtab(&nlists, &strtab, &sections);
    assert_eq!(t.ranges.len(), 2);
    assert_eq!((t.ranges[0].start, t.ranges[0].end), (0x100, 0x140));
    assert_eq!((t.ranges[1].start, t.ranges[1].end), (0x140, 0x200));
    assert_eq!(name_at(&strtab, t.ranges[0].name_off), v("a"));
}

#[test]
fn directory_blocks_are_listed() {
    let mut b: Vec<u8> = Vec::new();
    for name in ["..", "x", "."] {
        b.extend_from_slice(&7u64.to_le_bytes());
        b.extend_from_slice(&0u64.to_le_bytes());
        b.extend_from_slice(&24u16.to_le_bytes());
        b.push(8);
        b.extend_from_slice(name.as_bytes());
        while b.len() % 24 != 0 {
            b.push(0);
        }
    }
    let n = b.len();
    let mut out: Vec<Vec<u8>> = vec![v("first")];
    list_dir(&b, n, &mut out);
    assert_eq!(out, vec![v("first"), v("x")]);
}

/// A Mach-O image with an identity, a text and a link-edit segment, and a symbol
/// table.
fn image() -> Vec<u8> {
    let mut commands: Vec<u8> = Vec::new();
    commands.extend_from_slice(&0x1bu32.to_le_bytes());
    commands.extend_from_slice(&24u32.to_le_bytes());
    commands.extend_from_slice(&[7u8; 16]);
    for (name, vmaddr, fileoff) in [("__TEXT", 0x1000u64, 0u64), ("__LINKEDIT", 0x9000, 0x500)] {
        commands.extend_from_slice(&0x19u32.to_le_bytes());
        commands.extend_from_slice(&72u32.to_le_bytes());
        let mut field = name.as_bytes().to_vec();
        field.resize(16, 0);
        commands.extend_from_slice(&field);
        commands.extend_from_slice(&vmaddr.to_le_bytes());
        commands.extend_from_slice(&0x1000u64.to_le_bytes());
        commands.extend_from_slice(&fileoff.to_le_bytes());
        commands.extend_from_slice(&[0u8; 24]);
    }
    commands.extend_from_slice(&2u32.to_le_bytes());
    commands.extend_from_slice(&24u32.to_le_bytes());
    for x in [0x600u32, 3, 0x700, 40] {
        commands.extend_from_slice(&x.to_le_bytes());
    }
    let mut b = vec![0u8; 32];
    b[0..4].copy_from_slice(&0xfeed_facfu32.to_le_bytes());
    b[16..20].copy_from_slice(&4u32.to_le_bytes());
    b[20..24].copy_from_slice(&(commands.len() as u32).to_le_bytes());
    b.extend_from_slice(&commands);
    b
}

#[test]
fn an_image_is_rebased() {
    let p = plan_image(&image(), 0x5000).unwrap();
    assert_eq!(p.slide, 0x4000);
    assert_eq!((p.sym_addr, p.nsyms), (0xd100, 3));
    assert_eq!((p.str_addr, p.strsize), (0xd200, 40));
    let t = load(&p, &[], v("names"), None);
    assert_eq!((t.slide, t.strtab, t.symtab.ranges.len()), (0x4000, v("names"), 0));
    assert!(t.lines.rows.is_empty());
}

#[test]
fn lines_come_from_the_file_with_the_right_identity() {
    assert!(match_dsym(&image(), &[7; 16]).is_some());
    assert!(match_dsym(&image(), &[8; 16]).is_none());
    let files = vec![None, Some(vec![1, 2, 3]), Some(image())];
    let dirs = vec![vec![], vec![], vec![]];
    assert!(load_dsym_lines(&[7; 16], &files, &dirs).is_some());
    assert!(load_dsym_lines(&[8; 16], &files, &dirs).is_none());
}

#[test]
fn tables_are_put_together() {
    let none = || Programs { rows: vec![], programs: vec![] };
    let table = || SymTable { ranges: vec![SymRange { start: 1, end: 2, name_off: 0 }] };
    let t = load_elf(Some(table()), Some(v("x")), none()).unwrap();
    assert_eq!((t.slide, t.symtab.ranges.len(), t.strtab), (0, 1, v("x")));
    assert!(load_elf(None, Some(v("x")), none()).is_none());
    assert!(load_elf(Some(table()), None, none()).is_none());
}
