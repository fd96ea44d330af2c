//! DWARF `.debug_line` decoder.
//!
//! Each compilation unit has a line number program: a small machine that
//! emits rows mapping addresses back to source locations. `build` runs every
//! program and flattens the rows into one sorted table; `Programs::lookup`
//! searches that table and `Programs::resolve_file` names the file of a row.

use vstd::prelude::*;

use crate::dwarf_util::{
    copy_range, le16, le32, read_cstr, read_initial_length, read_sleb, read_u16, read_u64, read_u8,
    read_uleb,
};
use crate::gostr::append;
use crate::sort::stable_order;
use crate::{dwarf_util, sort};

verus! {

#[derive(Clone, Copy, Debug)]
pub struct LineRow {
    pub pc: u64,
    pub line: u32,
    /// Index into `Programs::programs` of the program this row belongs to.
    pub program_id: u32,
    pub file_idx: u32,
}

/// `file_idx` of a row that marks the first address past a sequence. It is
/// never a real file index.
pub const END_SEQUENCE: u32 = u32::MAX;

pub struct FileEntry {
    pub dir_idx: usize,
    pub name: Vec<u8>,
}

pub struct Program {
    pub include_dirs: Vec<Vec<u8>>,
    /// Files are numbered from one: file index one is `files[0]`.
    pub files: Vec<FileEntry>,
    pub comp_dir: Vec<u8>,
}

pub struct Programs {
    pub rows: Vec<LineRow>,
    pub programs: Vec<Program>,
}

pub struct FileView {
    pub dir_idx: usize,
    pub name: Seq<u8>,
}

#[verifier::ext_equal]
pub struct ProgramView {
    pub include_dirs: Seq<Seq<u8>>,
    pub files: Seq<FileView>,
    pub comp_dir: Seq<u8>,
}

impl View for FileEntry {
    type V = FileView;

    open spec fn view(&self) -> FileView {
        FileView { dir_idx: self.dir_idx, name: self.name@ }
    }
}

pub open spec fn file_views(s: Seq<FileEntry>) -> Seq<FileView> {
    Seq::new(s.len(), |i: int| s[i]@)
}

pub open spec fn byte_views(s: Seq<Vec<u8>>) -> Seq<Seq<u8>> {
    Seq::new(s.len(), |i: int| s[i]@)
}

impl View for Program {
    type V = ProgramView;

    open spec fn view(&self) -> ProgramView {
        ProgramView {
            include_dirs: byte_views(self.include_dirs@),
            files: file_views(self.files@),
            comp_dir: self.comp_dir@,
        }
    }
}

pub open spec fn program_views(s: Seq<Program>) -> Seq<ProgramView> {
    Seq::new(s.len(), |i: int| s[i]@)
}

// ---- the row table ----

/// Sort key of a row: its address, an end marker before a real row.
pub open spec fn row_key(r: LineRow) -> u128 {
    (2 * r.pc + (if r.file_idx != END_SEQUENCE {
        1int
    } else {
        0int
    })) as u128
}

pub open spec fn row_keys(rows: Seq<LineRow>) -> Seq<u128> {
    Seq::new(rows.len(), |i: int| row_key(rows[i]))
}

/// Rows in address order, and at one address every end marker first.
pub open spec fn rows_sorted(rows: Seq<LineRow>) -> bool {
    forall|i: int, j: int|
        0 <= i < j < rows.len() ==> row_key(#[trigger] rows[i]) <= row_key(#[trigger] rows[j])
}

/// One past the position of the last row at or below `pc`.
pub open spec fn rows_upto(rows: Seq<LineRow>, pc: u64) -> nat
    decreases rows.len(),
{
    if rows.len() == 0 {
        0
    } else if rows.last().pc <= pc {
        rows.len()
    } else {
        rows_upto(rows.drop_last(), pc)
    }
}

/// The row that covers `pc`: the last one at or below it, unless that is an
/// end marker.
pub open spec fn covering_row(rows: Seq<LineRow>, pc: u64) -> Option<LineRow> {
    let n = rows_upto(rows, pc);
    if n == 0 || rows[n - 1].file_idx == END_SEQUENCE {
        None
    } else {
        Some(rows[n - 1])
    }
}

proof fn lemma_rows_upto(rows: Seq<LineRow>, pc: u64, n: int)
    requires
        0 <= n <= rows.len(),
        n > 0 ==> rows[n - 1].pc <= pc,
        forall|i: int| n <= i < rows.len() ==> (#[trigger] rows[i]).pc > pc,
    ensures
        rows_upto(rows, pc) == n,
    decreases rows.len(),
{
    if n < rows.len() {
        lemma_rows_upto(rows.drop_last(), pc, n);
    }
}

proof fn lemma_rows_upto_facts(rows: Seq<LineRow>, pc: u64)
    ensures
        rows_upto(rows, pc) <= rows.len(),
        rows_upto(rows, pc) > 0 ==> rows[rows_upto(rows, pc) - 1].pc <= pc,
        forall|i: int| rows_upto(rows, pc) <= i < rows.len() ==> (#[trigger] rows[i]).pc > pc,
    decreases rows.len(),
{
    if rows.len() > 0 && rows.last().pc > pc {
        lemma_rows_upto_facts(rows.drop_last(), pc);
        assert forall|i: int| rows_upto(rows, pc) <= i < rows.len() implies (
        #[trigger] rows[i]).pc > pc by {
            if i < rows.len() - 1 {
                assert(rows.drop_last()[i].pc > pc);
            }
        }
    }
}

/// Where a sequence begins at `pc`, looking up `pc` finds a real row at `pc`,
/// even when another sequence ends there.
pub proof fn law_sequence_start_is_found(rows: Seq<LineRow>, pc: u64, k: int)
    requires
        rows_sorted(rows),
        0 <= k < rows.len(),
        rows[k].pc == pc,
        rows[k].file_idx != END_SEQUENCE,
    ensures
        covering_row(rows, pc) is Some,
        covering_row(rows, pc)->0.pc == pc,
{
    lemma_rows_upto_facts(rows, pc);
    let n = rows_upto(rows, pc);
    assert(n > k);
    if k < n - 1 {
        assert(row_key(rows[k]) <= row_key(rows[n - 1]));
    }
}

/// Past the end of a sequence and before the next row nothing is found.
pub proof fn law_gap_finds_nothing(rows: Seq<LineRow>, pc: u64, k: int)
    requires
        rows_sorted(rows),
        0 <= k < rows.len(),
        rows[k].file_idx == END_SEQUENCE,
        rows[k].pc <= pc,
        k + 1 < rows.len() ==> pc < rows[k + 1].pc,
    ensures
        covering_row(rows, pc) is None,
{
    assert forall|i: int| k + 1 <= i < rows.len() implies (#[trigger] rows[i]).pc > pc by {
        if i > k + 1 {
            assert(row_key(rows[k + 1]) <= row_key(rows[i]));
        }
    }
    lemma_rows_upto(rows, pc, k + 1);
}

/// Below the first row nothing is found.
pub proof fn law_below_table_finds_nothing(rows: Seq<LineRow>, pc: u64)
    requires
        rows_sorted(rows),
        rows.len() > 0 ==> pc < rows[0].pc,
    ensures
        covering_row(rows, pc) is None,
{
    assert forall|i: int| 0 <= i < rows.len() implies (#[trigger] rows[i]).pc > pc by {
        if i > 0 {
            assert(row_key(rows[0]) <= row_key(rows[i]));
        }
    }
    lemma_rows_upto(rows, pc, 0);
}

// ---- paths ----

pub open spec fn is_absolute(s: Seq<u8>) -> bool {
    s.len() > 0 && s[0] == 47
}

/// `s` with a trailing slash, unless it is empty or has one.
pub open spec fn with_slash(s: Seq<u8>) -> Seq<u8> {
    if s.len() == 0 || s.last() == 47 {
        s
    } else {
        s.push(47)
    }
}

/// The directory of a file: the compilation directory for index zero, else
/// the include directory of that number, or nothing.
pub open spec fn file_dir(p: ProgramView, dir_idx: usize) -> Seq<u8> {
    if dir_idx == 0 {
        p.comp_dir
    } else if dir_idx - 1 < p.include_dirs.len() {
        p.include_dirs[dir_idx - 1]
    } else {
        Seq::empty()
    }
}

/// The whole path of a file: an absolute name alone; else its directory, a
/// relative include directory anchored at the compilation directory.
pub open spec fn file_path(p: ProgramView, f: FileView) -> Seq<u8> {
    let dir = file_dir(p, f.dir_idx);
    if is_absolute(f.name) {
        f.name
    } else if f.dir_idx != 0 && dir.len() > 0 && !is_absolute(dir) {
        with_slash(with_slash(p.comp_dir) + dir) + f.name
    } else {
        with_slash(dir) + f.name
    }
}

pub open spec fn resolved_path(programs: Seq<ProgramView>, program_id: u32, file_idx: u32) -> Seq<
    u8,
> {
    if program_id < programs.len() && 0 < file_idx && file_idx - 1 < programs[program_id as int].files.len() {
        file_path(programs[program_id as int], programs[program_id as int].files[file_idx - 1])
    } else {
        Seq::empty()
    }
}

/// Ends a non-empty path with a slash.
fn ensure_slash(out: &mut Vec<u8>)
    ensures
        final(out)@ == with_slash(old(out)@),
{
    if out.len() > 0 && out[out.len() - 1] != 47 {
        out.push(47);
    }
}

/// Copies as much of `src` as fits into `out`, and returns how much that is.
pub fn copy_into(out: &mut [u8], src: &Vec<u8>) -> (n: usize)
    ensures
        n == (if src.len() <= old(out)@.len() {
            src.len() as int
        } else {
            old(out)@.len() as int
        }),
        final(out)@.len() == old(out)@.len(),
        final(out)@ == src@.subrange(0, n as int) + old(out)@.subrange(
            n as int,
            old(out)@.len() as int,
        ),
{
    let n: usize = if src.len() <= out.len() {
        src.len()
    } else {
        out.len()
    };
    let mut i: usize = 0;
    assert(out@ =~= src@.subrange(0, 0) + old(out)@.subrange(0, old(out)@.len() as int));
    while i < n
        invariant
            i <= n <= src.len(),
            n <= out@.len(),
            out@.len() == old(out)@.len(),
            out@ == src@.subrange(0, i as int) + old(out)@.subrange(
                i as int,
                old(out)@.len() as int,
            ),
        decreases n - i,
    {
        out[i] = src[i];
        i = i + 1;
        assert(out@ =~= src@.subrange(0, i as int) + old(out)@.subrange(
            i as int,
            old(out)@.len() as int,
        ));
    }
    n
}

impl Programs {
    pub open spec fn wf(&self) -> bool {
        rows_sorted(self.rows@)
    }

    /// The row whose address range contains `pc`.
    pub fn lookup(&self, pc: u64) -> (r: Option<LineRow>)
        requires
            self.wf(),
        ensures
            r == covering_row(self.rows@, pc),
    {
        let mut lo: usize = 0;
        let mut hi: usize = self.rows.len();
        while lo < hi
            invariant
                self.wf(),
                lo <= hi <= self.rows.len(),
                forall|i: int| 0 <= i < lo ==> (#[trigger] self.rows[i]).pc <= pc,
                forall|i: int| hi <= i < self.rows.len() ==> (#[trigger] self.rows[i]).pc > pc,
            decreases hi - lo,
        {
            let mid: usize = lo + (hi - lo) / 2;
            if self.rows[mid].pc <= pc {
                proof {
                    assert forall|i: int| 0 <= i < mid + 1 implies (#[trigger] self.rows[i]).pc
                        <= pc by {
                        if i < mid {
                            assert(row_key(self.rows[i]) <= row_key(self.rows[mid as int]));
                        }
                    }
                }
                lo = mid + 1;
            } else {
                proof {
                    assert forall|i: int| mid <= i < self.rows.len() implies (
                    #[trigger] self.rows[i]).pc > pc by {
                        if i > mid {
                            assert(row_key(self.rows[mid as int]) <= row_key(self.rows[i]));
                        }
                    }
                }
                hi = mid;
            }
        }
        proof {
            lemma_rows_upto(self.rows@, pc, lo as int);
        }
        if lo == 0 {
            return None;
        }
        let r = self.rows[lo - 1];
        if r.file_idx == END_SEQUENCE {
            return None;
        }
        Some(r)
    }

    /// The path of `(program_id, file_idx)`; empty on a miss.
    pub fn path_of(&self, program_id: u32, file_idx: u32) -> (r: Vec<u8>)
        ensures
            r@ == resolved_path(program_views(self.programs@), program_id, file_idx),
    {
        let mut whole: Vec<u8> = Vec::new();
        assert(whole@ =~= Seq::empty());
        if program_id as usize >= self.programs.len() || file_idx == 0 {
            return whole;
        }
        let prog = &self.programs[program_id as usize];
        if (file_idx - 1) as usize >= prog.files.len() {
            return whole;
        }
        let f = &prog.files[(file_idx - 1) as usize];
        assert(f@ == program_views(self.programs@)[program_id as int].files[file_idx - 1]);
        let absolute = f.name.len() > 0 && f.name[0] == 47;
        if !absolute {
            let empty: Vec<u8> = Vec::new();
            let dir = if f.dir_idx == 0 {
                &prog.comp_dir
            } else if f.dir_idx - 1 < prog.include_dirs.len() {
                &prog.include_dirs[f.dir_idx - 1]
            } else {
                &empty
            };
            assert(dir@ =~= file_dir(prog@, f.dir_idx));
            if f.dir_idx != 0 && dir.len() > 0 && dir[0] != 47 {
                append(&mut whole, prog.comp_dir.as_slice());
                assert(whole@ =~= prog.comp_dir@);
                ensure_slash(&mut whole);
            }
            let ghost prefix = whole@;
            append(&mut whole, dir.as_slice());
            assert(prefix.len() == 0 ==> whole@ =~= dir@);
            ensure_slash(&mut whole);
        }
        let ghost head = whole@;
        append(&mut whole, f.name.as_slice());
        assert(head.len() == 0 ==> whole@ =~= f.name@);
        whole
    }

    /// Writes the path of `(program_id, file_idx)` into `out` as far as it
    /// fits, and returns the number of bytes written (zero on a miss).
    pub fn resolve_file(&self, program_id: u32, file_idx: u32, out: &mut [u8]) -> (n: usize)
        ensures
            ({
                let path = resolved_path(program_views(self.programs@), program_id, file_idx);
                &&& n == (if path.len() <= old(out)@.len() {
                    path.len()
                } else {
                    old(out)@.len()
                })
                &&& final(out)@ == path.subrange(0, n as int) + old(out)@.subrange(
                    n as int,
                    old(out)@.len() as int,
                )
            }),
    {
        let whole = self.path_of(program_id, file_idx);
        copy_into(out, &whole)
    }
}

// ---- the line number program ----

/// The fixed part of a program's header.
pub struct Header {
    pub min_inst: u8,
    pub line_base: i8,
    pub line_range: u8,
    pub opcode_base: u8,
    /// Operand counts of the standard opcodes.
    pub std_lengths: Vec<u8>,
    /// Where the directory table starts.
    pub tables: usize,
    /// Where the opcodes start.
    pub code: usize,
}

#[verifier::ext_equal]
pub struct HeaderView {
    pub min_inst: u8,
    pub line_base: i8,
    pub line_range: u8,
    pub opcode_base: u8,
    pub std_lengths: Seq<u8>,
    pub tables: int,
    pub code: int,
}

impl View for Header {
    type V = HeaderView;

    open spec fn view(&self) -> HeaderView {
        HeaderView {
            min_inst: self.min_inst,
            line_base: self.line_base,
            line_range: self.line_range,
            opcode_base: self.opcode_base,
            std_lengths: self.std_lengths@,
            tables: self.tables as int,
            code: self.code as int,
        }
    }
}

/// A position that does not fit the machine stands for the largest one.
pub open spec fn clamp_off(x: int) -> int {
    if x > usize::MAX {
        usize::MAX as int
    } else {
        x
    }
}

pub open spec fn signed8(x: u8) -> i8 {
    if x >= 128 {
        (x - 256) as i8
    } else {
        x as i8
    }
}

/// Number of operand counts that a header declares.
pub open spec fn std_count(opcode_base: u8) -> int {
    if opcode_base == 0 {
        0
    } else {
        opcode_base - 1
    }
}

/// The header of the program whose body starts at `o`. Versions two to four
/// are read; the line range may not be zero, and at most sixteen standard
/// opcodes may be declared.
pub open spec fn get_header(b: Seq<u8>, o: int) -> Option<HeaderView> {
    let version = dwarf_util::le_value(b, o, 2);
    let p = if version >= 4 {
        o + 8
    } else {
        o + 7
    };
    if o + 2 > b.len() || version < 2 || version > 4 || p + 4 > b.len() || b[p + 2] == 0
        || std_count(b[p + 3]) > 16 || p + 4 + std_count(b[p + 3]) > b.len() {
        None
    } else {
        Some(
            HeaderView {
                min_inst: b[o + 6],
                line_base: signed8(b[p + 1]),
                line_range: b[p + 2],
                opcode_base: b[p + 3],
                std_lengths: b.subrange(p + 4, p + 4 + std_count(b[p + 3])),
                tables: p + 4 + std_count(b[p + 3]),
                code: clamp_off(o + 6 + dwarf_util::le_value(b, o + 2, 4)),
            },
        )
    }
}

fn read_header(buf: &[u8], o: usize) -> (r: Option<Header>)
    ensures
        match get_header(buf@, o as int) {
            None => r is None,
            Some(h) => r is Some && r->0@ == h,
        },
{
    let len: usize = buf.len();
    if len < 2 || o > len - 2 {
        return None;
    }
    let version: u16 = le16(buf, o);
    if version < 2 || version > 4 {
        return None;
    }
    let skip: usize = if version >= 4 {
        8
    } else {
        7
    };
    if len - o < skip + 4 {
        return None;
    }
    let p: usize = o + skip;
    let header_length: u32 = le32(buf, o + 2);
    let opcode_base: u8 = buf[p + 3];
    let n: usize = if opcode_base == 0 {
        0
    } else {
        (opcode_base - 1) as usize
    };
    if buf[p + 2] == 0 || n > 16 || len - p < 4 + n {
        return None;
    }
    let code: usize = if header_length as usize > usize::MAX - (o + 6) {
        usize::MAX
    } else {
        o + 6 + header_length as usize
    };
    let lb: u8 = buf[p + 1];
    let line_base: i8 = if lb >= 128 {
        (lb as i16 - 256) as i8
    } else {
        lb as i8
    };
    Some(
        Header {
            min_inst: buf[o + 6],
            line_base,
            line_range: buf[p + 2],
            opcode_base,
            std_lengths: copy_range(buf, p + 4, p + 4 + n),
            tables: p + 4 + n,
            code,
        },
    )
}

/// The include directories: strings up to an empty one.
pub open spec fn get_dirs(b: Seq<u8>, o: int) -> Option<(Seq<Seq<u8>>, int)>
    decreases b.len() - o,
    when 0 <= o <= b.len()
{
    proof {
        dwarf_util::lemma_scan_bounds(b, o, dwarf_util::is_nul());
    }
    match dwarf_util::get_cstr(b, o) {
        None => None,
        Some((s, o1)) => if s.len() == 0 {
            Some((Seq::empty(), o1))
        } else {
            prepend(seq![s], get_dirs(b, o1))
        },
    }
}

pub open spec fn prepend<T>(head: Seq<T>, r: Option<(Seq<T>, int)>) -> Option<(Seq<T>, int)> {
    match r {
        None => None,
        Some((rest, o)) => Some((head + rest, o)),
    }
}

/// A file entry after its name: directory index, time and length.
pub open spec fn get_file(b: Seq<u8>, o: int) -> Option<(FileView, int)> {
    match dwarf_util::get_cstr(b, o) {
        None => None,
        Some((name, o1)) => match dwarf_util::get_uleb(b, o1) {
            None => None,
            Some((dir, o2)) => match dwarf_util::get_uleb(b, o2) {
                None => None,
                Some((_mtime, o3)) => match dwarf_util::get_uleb(b, o3) {
                    None => None,
                    Some((_len, o4)) => Some((FileView { dir_idx: dir as usize, name }, o4)),
                },
            },
        },
    }
}

pub proof fn lemma_uleb_moves(b: Seq<u8>, o: int)
    requires
        0 <= o <= b.len(),
    ensures
        dwarf_util::get_uleb(b, o) matches Some((v, e)) ==> o < e <= b.len(),
{
    dwarf_util::lemma_scan_bounds(b, o, dwarf_util::is_last_group());
}

pub proof fn lemma_file_moves(b: Seq<u8>, o: int)
    requires
        0 <= o <= b.len(),
    ensures
        get_file(b, o) matches Some((v, e)) ==> o < e <= b.len(),
{
    dwarf_util::lemma_scan_bounds(b, o, dwarf_util::is_nul());
    if let Some((name, o1)) = dwarf_util::get_cstr(b, o) {
        lemma_uleb_moves(b, o1);
        if let Some((dir, o2)) = dwarf_util::get_uleb(b, o1) {
            lemma_uleb_moves(b, o2);
            if let Some((m, o3)) = dwarf_util::get_uleb(b, o2) {
                lemma_uleb_moves(b, o3);
            }
        }
    }
}

/// The file table: entries up to an empty name.
pub open spec fn get_files(b: Seq<u8>, o: int) -> Option<(Seq<FileView>, int)>
    decreases b.len() - o,
    when 0 <= o <= b.len()
{
    proof {
        lemma_file_moves(b, o);
    }
    match dwarf_util::get_cstr(b, o) {
        None => None,
        Some((s, o1)) => if s.len() == 0 {
            Some((Seq::empty(), o1))
        } else {
            match get_file(b, o) {
                None => None,
                Some((f, o2)) => prepend(seq![f], get_files(b, o2)),
            }
        },
    }
}

fn read_dirs(buf: &[u8], off: &mut usize) -> (r: Option<Vec<Vec<u8>>>)
    requires
        *old(off) <= buf.len(),
    ensures
        match get_dirs(buf@, *old(off) as int) {
            None => r is None,
            Some((d, o)) => r is Some && byte_views(r->0@) == d && *final(off) == o && o
                <= buf.len(),
        },
{
    let mut dirs: Vec<Vec<u8>> = Vec::new();
    let ghost want = get_dirs(buf@, *off as int);
    proof {
        assert(byte_views(dirs@) =~= Seq::empty());
        if let Some((d, o)) = want {
            assert(Seq::empty() + d =~= d);
        }
    }
    loop
        invariant
            *off <= buf.len(),
            want == prepend(byte_views(dirs@), get_dirs(buf@, *off as int)),
            want == get_dirs(buf@, *old(off) as int),
        decreases buf.len() - *off,
    {
        let ghost at = *off as int;
        proof {
            dwarf_util::lemma_scan_bounds(buf@, at, dwarf_util::is_nul());
        }
        let s = match read_cstr(buf, off) {
            None => {
                return None;
            },
            Some(s) => s,
        };
        if s.len() == 0 {
            assert(s@ =~= Seq::empty());
            assert(byte_views(dirs@) + Seq::<Seq<u8>>::empty() =~= byte_views(dirs@));
            return Some(dirs);
        }
        let ghost prev = byte_views(dirs@);
        let ghost name = s@;
        dirs.push(s);
        proof {
            assert(byte_views(dirs@) =~= prev.push(name));
            if let Some((rest, o)) = get_dirs(buf@, *off as int) {
                assert(prev + (seq![name] + rest) =~= prev.push(name) + rest);
            }
        }
    }
}

fn read_file(buf: &[u8], off: &mut usize) -> (r: Option<FileEntry>)
    ensures
        match get_file(buf@, *old(off) as int) {
            None => r is None,
            Some((f, o)) => r is Some && r->0@ == f && *final(off) == o,
        },
{
    let name = match read_cstr(buf, off) {
        None => {
            return None;
        },
        Some(s) => s,
    };
    let dir: u64 = match read_uleb(buf, off) {
        None => {
            return None;
        },
        Some(v) => v,
    };
    if read_uleb(buf, off).is_none() {
        return None;
    }
    if read_uleb(buf, off).is_none() {
        return None;
    }
    Some(FileEntry { dir_idx: dir as usize, name })
}

fn read_files(buf: &[u8], off: &mut usize) -> (r: Option<Vec<FileEntry>>)
    requires
        *old(off) <= buf.len(),
    ensures
        match get_files(buf@, *old(off) as int) {
            None => r is None,
            Some((d, o)) => r is Some && file_views(r->0@) == d && *final(off) == o,
        },
{
    let mut files: Vec<FileEntry> = Vec::new();
    let ghost want = get_files(buf@, *off as int);
    proof {
        assert(file_views(files@) =~= Seq::empty());
        if let Some((d, o)) = want {
            assert(Seq::empty() + d =~= d);
        }
    }
    loop
        invariant
            *off <= buf.len(),
            want == prepend(file_views(files@), get_files(buf@, *off as int)),
            want == get_files(buf@, *old(off) as int),
        decreases buf.len() - *off,
    {
        let ghost at = *off as int;
        proof {
            dwarf_util::lemma_scan_bounds(buf@, at, dwarf_util::is_nul());
            lemma_file_moves(buf@, at);
        }
        let mut probe: usize = *off;
        let s = match read_cstr(buf, &mut probe) {
            None => {
                return None;
            },
            Some(s) => s,
        };
        if s.len() == 0 {
            *off = probe;
            assert(s@ =~= Seq::empty());
            assert(file_views(files@) + Seq::<FileView>::empty() =~= file_views(files@));
            return Some(files);
        }
        let f = match read_file(buf, off) {
            None => {
                return None;
            },
            Some(f) => f,
        };
        let ghost prev = file_views(files@);
        let ghost fv = f@;
        files.push(f);
        proof {
            assert(file_views(files@) =~= prev.push(fv));
            if let Some((rest, o)) = get_files(buf@, *off as int) {
                assert(prev + (seq![fv] + rest) =~= prev.push(fv) + rest);
            }
        }
    }
}

/// The registers of the line machine, with the rows and files so far.
pub struct Machine {
    pub off: int,
    pub address: u64,
    pub file: u64,
    pub line: i64,
    pub rows: Seq<LineRow>,
    pub files: Seq<FileView>,
}

/// The line of a row: never negative, and cut to its width.
pub open spec fn row_line(line: i64) -> u32 {
    if line < 0 {
        0
    } else {
        line as u32
    }
}

/// Emits a row for the current registers; address zero emits none.
pub open spec fn emit(m: Machine, program_id: u32) -> Machine {
    if m.address == 0 {
        m
    } else {
        Machine {
            rows: m.rows.push(
                LineRow {
                    pc: m.address,
                    line: row_line(m.line),
                    program_id,
                    file_idx: m.file as u32,
                },
            ),
            ..m
        }
    }
}

/// Ends a sequence: an end marker at the current address, then fresh registers.
pub open spec fn end_sequence(m: Machine, program_id: u32) -> Machine {
    Machine {
        address: 0,
        file: 1,
        line: 1,
        rows: if m.address == 0 {
            m.rows
        } else {
            m.rows.push(
                LineRow { pc: m.address, line: 0, program_id, file_idx: END_SEQUENCE },
            )
        },
        ..m
    }
}

/// Moves the address by `ops` instructions.
pub open spec fn advance(h: HeaderView, m: Machine, ops: int) -> Machine {
    Machine { address: dwarf_util::wrap64(m.address + dwarf_util::wrap64(ops * h.min_inst)), ..m }
}

/// Reads past `n` unsigned operands.
pub open spec fn skip_ulebs(b: Seq<u8>, o: int, n: nat) -> Option<int>
    decreases n,
{
    if n == 0 {
        Some(o)
    } else {
        match dwarf_util::get_uleb(b, o) {
            None => None,
            Some((_v, o1)) => skip_ulebs(b, o1, (n - 1) as nat),
        }
    }
}

/// An extended opcode; `m.off` is just past the zero byte.
pub open spec fn extended_op(b: Seq<u8>, program_id: u32, m: Machine) -> Option<Machine> {
    match dwarf_util::get_uleb(b, m.off) {
        None => None,
        Some((len, o1)) => if len == 0 {
            Some(Machine { off: o1, ..m })
        } else {
            match dwarf_util::get_u8(b, o1) {
                None => None,
                Some((op, o2)) => if op == 1 {
                    Some(end_sequence(Machine { off: o2, ..m }, program_id))
                } else if op == 2 {
                    match dwarf_util::get_u64(b, o2) {
                        None => None,
                        Some((a, o3)) => Some(Machine { off: o3, address: a, ..m }),
                    }
                } else if op == 3 {
                    match get_file(b, o2) {
                        None => None,
                        Some((f, o3)) => Some(Machine { off: o3, files: m.files.push(f), ..m }),
                    }
                } else if op == 4 {
                    match dwarf_util::get_uleb(b, o2) {
                        None => None,
                        Some((_v, o3)) => Some(Machine { off: o3, ..m }),
                    }
                } else {
                    Some(Machine { off: clamp_off(o2 + (len - 1)), ..m })
                },
            }
        },
    }
}

/// A standard opcode; `m.off` is just past it.
pub open spec fn standard_op(
    h: HeaderView,
    b: Seq<u8>,
    program_id: u32,
    op: u8,
    m: Machine,
) -> Option<Machine> {
    if op == 1 {
        Some(emit(m, program_id))
    } else if op == 2 {
        match dwarf_util::get_uleb(b, m.off) {
            None => None,
            Some((adv, o)) => Some(advance(h, Machine { off: o, ..m }, adv as int)),
        }
    } else if op == 3 {
        match dwarf_util::get_sleb(b, m.off) {
            None => None,
            Some((adv, o)) => Some(Machine { off: o, line: dwarf_util::wrap_i64(m.line + adv), ..m }),
        }
    } else if op == 4 {
        match dwarf_util::get_uleb(b, m.off) {
            None => None,
            Some((f, o)) => Some(Machine { off: o, file: f, ..m }),
        }
    } else if op == 5 || op == 12 {
        match dwarf_util::get_uleb(b, m.off) {
            None => None,
            Some((_v, o)) => Some(Machine { off: o, ..m }),
        }
    } else if op == 6 || op == 7 || op == 10 || op == 11 {
        Some(m)
    } else if op == 8 {
        Some(advance(h, m, (255 - h.opcode_base) / (h.line_range as int)))
    } else if op == 9 {
        match dwarf_util::get_u16(b, m.off) {
            None => None,
            Some((inc, o)) => Some(
                Machine { off: o, address: dwarf_util::wrap64(m.address + inc), ..m },
            ),
        }
    } else {
        match skip_ulebs(b, m.off, h.std_lengths[op - 1] as nat) {
            None => None,
            Some(o) => Some(Machine { off: o, ..m }),
        }
    }
}

/// A special opcode moves address and line together and emits a row.
pub open spec fn special_op(h: HeaderView, program_id: u32, op: u8, m: Machine) -> Machine {
    let adjusted = op - h.opcode_base;
    let moved = advance(h, m, adjusted / (h.line_range as int));
    emit(
        Machine {
            line: dwarf_util::wrap_i64(m.line + (h.line_base + adjusted % (h.line_range as int))),
            ..moved
        },
        program_id,
    )
}

/// One instruction, or `None` when the section ends inside it.
pub open spec fn step(h: HeaderView, b: Seq<u8>, program_id: u32, m: Machine) -> Option<Machine> {
    match dwarf_util::get_u8(b, m.off) {
        None => None,
        Some((op, o)) => {
            let m1 = Machine { off: o, ..m };
            if op == 0 {
                extended_op(b, program_id, m1)
            } else if op < h.opcode_base {
                standard_op(h, b, program_id, op, m1)
            } else {
                Some(special_op(h, program_id, op, m1))
            }
        },
    }
}

/// Runs instructions up to `end`. The flag says whether the end was reached;
/// the machine is the last one before a truncated instruction otherwise.
pub open spec fn run(h: HeaderView, b: Seq<u8>, end: int, program_id: u32, m: Machine) -> (
    Machine,
    bool,
)
    decreases
            if m.off >= end {
                0
            } else {
                end - m.off
            },
{
    if m.off >= end {
        (m, true)
    } else {
        match step(h, b, program_id, m) {
            None => (m, false),
            Some(m2) => if m2.off <= m.off {
                (m, false)
            } else {
                run(h, b, end, program_id, m2)
            },
        }
    }
}

/// The compilation directory recorded for a program's offset: the first match.
pub open spec fn comp_dir_of(dirs: Seq<(u64, Vec<u8>)>, prog_start: int) -> Seq<u8>
    decreases dirs.len(),
{
    if dirs.len() == 0 {
        Seq::empty()
    } else if dirs[0].0 == prog_start {
        dirs[0].1@
    } else {
        comp_dir_of(dirs.subrange(1, dirs.len() as int), prog_start)
    }
}

/// The program whose body is `b[o..end)`: its tables, if it decodes, and the
/// row table with the rows that it emitted.
pub open spec fn decode(
    b: Seq<u8>,
    o: int,
    end: int,
    prog_start: int,
    program_id: u32,
    rows: Seq<LineRow>,
    comp_dirs: Seq<(u64, Vec<u8>)>,
) -> (Option<ProgramView>, Seq<LineRow>) {
    match get_header(b, o) {
        None => (None, rows),
        Some(h) => match get_dirs(b, h.tables) {
            None => (None, rows),
            Some((dirs, o1)) => match get_files(b, o1) {
                None => (None, rows),
                Some((files, _o2)) => {
                    let (m, ok) = run(
                        h,
                        b,
                        end,
                        program_id,
                        Machine { off: h.code, address: 0, file: 1, line: 1, rows, files },
                    );
                    if ok {
                        (
                            Some(
                                ProgramView {
                                    include_dirs: dirs,
                                    files: m.files,
                                    comp_dir: comp_dir_of(comp_dirs, prog_start),
                                },
                            ),
                            m.rows,
                        )
                    } else {
                        (None, m.rows)
                    }
                },
            },
        },
    }
}

/// The executable registers.
struct Regs {
    off: usize,
    address: u64,
    file: u64,
    line: i64,
}

spec fn machine(r: Regs, rows: Seq<LineRow>, files: Seq<FileEntry>) -> Machine {
    Machine {
        off: r.off as int,
        address: r.address,
        file: r.file,
        line: r.line,
        rows,
        files: file_views(files),
    }
}

fn add_wrap(a: u64, b: u64) -> (r: u64)
    ensures
        r == dwarf_util::wrap64(a + b),
{
    ((a as u128 + b as u128) % 0x1_0000_0000_0000_0000) as u64
}

fn mul_wrap(a: u64, b: u8) -> (r: u64)
    ensures
        r == dwarf_util::wrap64(a * b),
{
    assert(a * b <= 0xffff_ffff_ffff_ffff * 0xff) by (nonlinear_arith)
        requires
            a <= 0xffff_ffff_ffff_ffff,
            b <= 0xff,
    ;
    ((a as u128 * b as u128) % 0x1_0000_0000_0000_0000) as u64
}

fn add_line(a: i64, b: i64) -> (r: i64)
    ensures
        r == dwarf_util::wrap_i64(a + b),
{
    let s: i128 = a as i128 + b as i128;
    if s > 0x7fff_ffff_ffff_ffff {
        (s - 0x1_0000_0000_0000_0000) as i64
    } else if s < -0x8000_0000_0000_0000 {
        (s + 0x1_0000_0000_0000_0000) as i64
    } else {
        s as i64
    }
}

fn emit_row(r: &Regs, program_id: u32, rows: &mut Vec<LineRow>)
    ensures
        forall|files: Seq<FileEntry>|
            #[trigger]
            machine(*r, final(rows)@, files) == emit(machine(*r, old(rows)@, files), program_id),
{
    if r.address != 0 {
        let line: u32 = if r.line < 0 {
            0
        } else {
            r.line as u32
        };
        rows.push(LineRow { pc: r.address, line, program_id, file_idx: r.file as u32 });
    }
}

fn exec_extended(
    buf: &[u8],
    program_id: u32,
    r: &mut Regs,
    rows: &mut Vec<LineRow>,
    files: &mut Vec<FileEntry>,
) -> (ok: bool)
    ensures
        match extended_op(buf@, program_id, machine(*old(r), old(rows)@, old(files)@)) {
            Some(m) => ok && machine(*final(r), final(rows)@, final(files)@) == m,
            None => !ok && final(rows)@ == old(rows)@,
        },
{
    let len: u64 = match read_uleb(buf, &mut r.off) {
        None => {
            return false;
        },
        Some(v) => v,
    };
    if len == 0 {
        return true;
    }
    let op: u8 = match read_u8(buf, &mut r.off) {
        None => {
            return false;
        },
        Some(v) => v,
    };
    if op == 1 {
        if r.address != 0 {
            rows.push(LineRow { pc: r.address, line: 0, program_id, file_idx: END_SEQUENCE });
        }
        r.address = 0;
        r.file = 1;
        r.line = 1;
        true
    } else if op == 2 {
        match read_u64(buf, &mut r.off) {
            None => false,
            Some(a) => {
                r.address = a;
                true
            },
        }
    } else if op == 3 {
        match read_file(buf, &mut r.off) {
            None => false,
            Some(f) => {
                let ghost fv = f@;
                files.push(f);
                assert(file_views(files@) =~= file_views(old(files)@).push(fv));
                true
            },
        }
    } else if op == 4 {
        read_uleb(buf, &mut r.off).is_some()
    } else {
        r.off = if len - 1 > (usize::MAX - r.off) as u64 {
            usize::MAX
        } else {
            r.off + (len - 1) as usize
        };
        true
    }
}

fn skip_operands(buf: &[u8], off: &mut usize, n: u8) -> (ok: bool)
    ensures
        match skip_ulebs(buf@, *old(off) as int, n as nat) {
            Some(o) => ok && *final(off) == o,
            None => !ok,
        },
{
    let mut left: u8 = n;
    while left > 0
        invariant
            skip_ulebs(buf@, *off as int, left as nat) == skip_ulebs(
                buf@,
                *old(off) as int,
                n as nat,
            ),
        decreases left,
    {
        if read_uleb(buf, off).is_none() {
            return false;
        }
        left = left - 1;
    }
    true
}

fn exec_standard(
    h: &Header,
    buf: &[u8],
    program_id: u32,
    op: u8,
    r: &mut Regs,
    rows: &mut Vec<LineRow>,
    Ghost(files): Ghost<Seq<FileEntry>>,
) -> (ok: bool)
    requires
        0 < op < h.opcode_base,
        h.line_range > 0,
        h.std_lengths.len() == h.opcode_base - 1,
    ensures
        match standard_op(h@, buf@, program_id, op, machine(*old(r), old(rows)@, files)) {
            Some(m) => ok && machine(*final(r), final(rows)@, files) == m,
            None => !ok && final(rows)@ == old(rows)@,
        },
{
    if op == 1 {
        emit_row(r, program_id, rows);
        assert(machine(*r, rows@, files) == emit(machine(*r, old(rows)@, files), program_id));
        true
    } else if op == 2 {
        match read_uleb(buf, &mut r.off) {
            None => false,
            Some(adv) => {
                r.address = add_wrap(r.address, mul_wrap(adv, h.min_inst));
                true
            },
        }
    } else if op == 3 {
        match read_sleb(buf, &mut r.off) {
            None => false,
            Some(adv) => {
                r.line = add_line(r.line, adv);
                true
            },
        }
    } else if op == 4 {
        match read_uleb(buf, &mut r.off) {
            None => false,
            Some(f) => {
                r.file = f;
                true
            },
        }
    } else if op == 5 || op == 12 {
        read_uleb(buf, &mut r.off).is_some()
    } else if op == 6 || op == 7 || op == 10 || op == 11 {
        true
    } else if op == 8 {
        let ops: u64 = ((255 - h.opcode_base) / h.line_range) as u64;
        r.address = add_wrap(r.address, mul_wrap(ops, h.min_inst));
        true
    } else if op == 9 {
        match read_u16(buf, &mut r.off) {
            None => false,
            Some(inc) => {
                r.address = add_wrap(r.address, inc as u64);
                true
            },
        }
    } else {
        skip_operands(buf, &mut r.off, h.std_lengths[(op - 1) as usize])
    }
}

fn exec_special(
    h: &Header,
    program_id: u32,
    op: u8,
    r: &mut Regs,
    rows: &mut Vec<LineRow>,
    Ghost(files): Ghost<Seq<FileEntry>>,
)
    requires
        op >= h.opcode_base,
        h.line_range > 0,
    ensures
        machine(*final(r), final(rows)@, files) == special_op(
            h@,
            program_id,
            op,
            machine(*old(r), old(rows)@, files),
        ),
{
    let adjusted: u8 = op - h.opcode_base;
    let ops: u64 = (adjusted / h.line_range) as u64;
    let inc: i64 = h.line_base as i64 + (adjusted % h.line_range) as i64;
    r.address = add_wrap(r.address, mul_wrap(ops, h.min_inst));
    r.line = add_line(r.line, inc);
    emit_row(r, program_id, rows);
    assert(machine(*r, rows@, files) == emit(machine(*r, old(rows)@, files), program_id));
}

proof fn lemma_step_moves(h: HeaderView, b: Seq<u8>, program_id: u32, m: Machine)
    requires
        0 <= m.off < b.len() <= usize::MAX,
    ensures
        step(h, b, program_id, m) matches Some(m2) ==> m2.off > m.off,
{
    let o = m.off + 1;
    lemma_uleb_moves(b, o);
    dwarf_util::lemma_scan_bounds(b, o, dwarf_util::is_last_group());
    lemma_skip_moves(b, o, h.std_lengths[b[m.off] - 1] as nat);
    if let Some((len, o1)) = dwarf_util::get_uleb(b, o) {
        if o1 < b.len() {
            lemma_uleb_moves(b, o1 + 1);
            lemma_file_moves(b, o1 + 1);
        }
    }
}

proof fn lemma_skip_moves(b: Seq<u8>, o: int, n: nat)
    requires
        0 <= o <= b.len(),
    ensures
        skip_ulebs(b, o, n) matches Some(e) ==> o <= e <= b.len(),
    decreases n,
{
    if n > 0 {
        lemma_uleb_moves(b, o);
        if let Some((v, o1)) = dwarf_util::get_uleb(b, o) {
            lemma_skip_moves(b, o1, (n - 1) as nat);
        }
    }
}

fn find_comp_dir(dirs: &[(u64, Vec<u8>)], prog_start: usize) -> (r: Vec<u8>)
    ensures
        r@ == comp_dir_of(dirs@, prog_start as int),
{
    let mut i: usize = 0;
    assert(dirs@.subrange(0, dirs@.len() as int) =~= dirs@);
    while i < dirs.len()
        invariant
            i <= dirs.len(),
            comp_dir_of(dirs@, prog_start as int) == comp_dir_of(
                dirs@.subrange(i as int, dirs@.len() as int),
                prog_start as int,
            ),
        decreases dirs.len() - i,
    {
        let ghost rest = dirs@.subrange(i as int, dirs@.len() as int);
        if dirs[i].0 == prog_start as u64 {
            let d = &dirs[i].1;
            let out = copy_range(d.as_slice(), 0, d.len());
            assert(out@ =~= rest[0].1@);
            return out;
        }
        assert(rest.subrange(1, rest.len() as int) =~= dirs@.subrange(
            i + 1,
            dirs@.len() as int,
        ));
        i = i + 1;
    }
    let out: Vec<u8> = Vec::new();
    assert(out@ =~= Seq::empty());
    out
}

/// Decodes the program whose body starts at `off` and ends at `end`, appending
/// its rows. Rows emitted before a truncated instruction stay.
#[verifier::loop_isolation(false)]
pub fn decode_program(
    buf: &[u8],
    off: usize,
    end: usize,
    prog_start: usize,
    program_id: u32,
    rows: &mut Vec<LineRow>,
    comp_dirs: &[(u64, Vec<u8>)],
) -> (r: Option<Program>)
    requires
        end <= buf.len(),
    ensures
        ({
            let (p, out) = decode(
                buf@,
                off as int,
                end as int,
                prog_start as int,
                program_id,
                old(rows)@,
                comp_dirs@,
            );
            &&& final(rows)@ == out
            &&& match p {
                None => r is None,
                Some(v) => r is Some && r->0@ == v,
            }
        }),
{
    let h = match read_header(buf, off) {
        None => {
            return None;
        },
        Some(h) => h,
    };
    let mut at: usize = h.tables;
    let include_dirs = match read_dirs(buf, &mut at) {
        None => {
            return None;
        },
        Some(d) => d,
    };
    let mut files = match read_files(buf, &mut at) {
        None => {
            return None;
        },
        Some(f) => f,
    };
    let mut r = Regs { off: h.code, address: 0, file: 1, line: 1 };
    let ghost start = machine(r, rows@, files@);
    while r.off < end
        invariant
            end <= buf.len(),
            h.line_range > 0,
            h.opcode_base > 0 ==> h.std_lengths.len() == h.opcode_base - 1,
            run(h@, buf@, end as int, program_id, machine(r, rows@, files@)) == run(
                h@,
                buf@,
                end as int,
                program_id,
                start,
            ),
        decreases
            if r.off < end {
                end - r.off
            } else {
                0
            },
    {
        let ghost m0 = machine(r, rows@, files@);
        proof {
            lemma_step_moves(h@, buf@, program_id, m0);
        }
        let op: u8 = buf[r.off];
        r.off = r.off + 1;
        let ok = if op == 0 {
            exec_extended(buf, program_id, &mut r, rows, &mut files)
        } else if op < h.opcode_base {
            exec_standard(&h, buf, program_id, op, &mut r, rows, Ghost(files@))
        } else {
            exec_special(&h, program_id, op, &mut r, rows, Ghost(files@));
            true
        };
        if !ok {
            return None;
        }
    }
    let comp_dir = find_comp_dir(comp_dirs, prog_start);
    Some(Program { include_dirs, files, comp_dir })
}

/// All programs of the section from `o` on, after `programs` with `rows`.
pub open spec fn decode_all(
    b: Seq<u8>,
    o: int,
    comp_dirs: Seq<(u64, Vec<u8>)>,
    rows: Seq<LineRow>,
    programs: Seq<ProgramView>,
) -> (Seq<LineRow>, Seq<ProgramView>)
    decreases b.len() - o,
{
    if o < 0 || o >= b.len() {
        (rows, programs)
    } else {
        match dwarf_util::get_initial_length(b, o) {
            None => (rows, programs),
            Some(((len, _wide), o1)) => if o1 + len > b.len() || o1 + len <= o {
                (rows, programs)
            } else {
                let (p, rows1) = decode(
                    b,
                    o1,
                    o1 + len,
                    o,
                    programs.len() as u32,
                    rows,
                    comp_dirs,
                );
                let programs1 = match p {
                    None => programs,
                    Some(v) => programs.push(v),
                };
                decode_all(b, o1 + len, comp_dirs, rows1, programs1)
            },
        }
    }
}

/// `sorted` is the stable sort of `raw` by address, end markers first.
pub open spec fn is_row_sort(raw: Seq<LineRow>, sorted: Seq<LineRow>) -> bool {
    exists|p: Seq<usize>|
        #[trigger] sort::is_stable_order(p, row_keys(raw)) && sorted == sort::permuted(raw, p)
}

/// Sorting neither drops nor invents a row.
pub proof fn law_row_sort_keeps_rows(raw: Seq<LineRow>, sorted: Seq<LineRow>)
    requires
        is_row_sort(raw, sorted),
        raw.len() <= usize::MAX,
    ensures
        sorted.len() == raw.len(),
        rows_sorted(sorted),
        forall|r: LineRow| raw.contains(r) <==> sorted.contains(r),
{
    let p = choose|p: Seq<usize>|
        #[trigger] sort::is_stable_order(p, row_keys(raw)) && sorted == sort::permuted(raw, p);
    sort::lemma_order_is_permutation(p, row_keys(raw));
    assert forall|i: int, j: int| 0 <= i < j < sorted.len() implies row_key(#[trigger] sorted[i])
        <= row_key(#[trigger] sorted[j]) by {
        assert(sort::before(row_keys(raw), p[i], p[j]));
    }
    assert forall|r: LineRow| raw.contains(r) implies sorted.contains(r) by {
        let k = choose|k: int| 0 <= k < raw.len() && raw[k] == r;
        assert(p.contains(k as usize));
        let i = choose|i: int| 0 <= i < p.len() && p[i] == k as usize;
        assert(sorted[i] == r);
    }
    assert forall|r: LineRow| sorted.contains(r) implies raw.contains(r) by {
        let i = choose|i: int| 0 <= i < sorted.len() && sorted[i] == r;
        assert(p[i] < raw.len());
        assert(raw[p[i] as int] == r);
    }
}

fn sort_rows(rows: &Vec<LineRow>) -> (out: Vec<LineRow>)
    ensures
        is_row_sort(rows@, out@),
{
    let mut keys: Vec<u128> = Vec::new();
    let mut i: usize = 0;
    while i < rows.len()
        invariant
            i <= rows.len(),
            keys.len() == i,
            forall|k: int| 0 <= k < i ==> #[trigger] keys[k] == row_key(rows[k]),
        decreases rows.len() - i,
    {
        let r = rows[i];
        let rank: u128 = if r.file_idx != END_SEQUENCE {
            1
        } else {
            0
        };
        keys.push(2 * (r.pc as u128) + rank);
        i = i + 1;
    }
    assert(keys@ =~= row_keys(rows@));
    let p = stable_order(&keys);
    let mut out: Vec<LineRow> = Vec::new();
    let mut j: usize = 0;
    while j < p.len()
        invariant
            sort::is_stable_order(p@, row_keys(rows@)),
            j <= p.len(),
            out.len() == j,
            forall|k: int| 0 <= k < j ==> #[trigger] out[k] == rows[p[k] as int],
        decreases p.len() - j,
    {
        assert(p[j as int] < rows.len());
        out.push(rows[p[j]]);
        j = j + 1;
    }
    assert(out@ =~= sort::permuted(rows@, p@));
    out
}

/// Decodes all line programs of `.debug_line`. `comp_dirs` pairs program
/// offsets with compilation directories, and may be empty.
pub fn build(debug_line: &[u8], comp_dirs: &[(u64, Vec<u8>)]) -> (r: Programs)
    ensures
        ({
            let (raw, programs) = decode_all(
                debug_line@,
                0,
                comp_dirs@,
                Seq::empty(),
                Seq::empty(),
            );
            &&& is_row_sort(raw, r.rows@)
            &&& program_views(r.programs@) == programs
        }),
        r.wf(),
{
    let mut rows: Vec<LineRow> = Vec::new();
    let mut programs: Vec<Program> = Vec::new();
    let mut off: usize = 0;
    let ghost want = decode_all(debug_line@, 0, comp_dirs@, Seq::empty(), Seq::empty());
    assert(program_views(programs@) =~= Seq::empty());
    assert(rows@ =~= Seq::empty());
    let mut done = false;
    while off < debug_line.len() && !done
        invariant
            want == decode_all(debug_line@, 0, comp_dirs@, Seq::empty(), Seq::empty()),
            !done ==> want == decode_all(
                debug_line@,
                off as int,
                comp_dirs@,
                rows@,
                program_views(programs@),
            ),
            done ==> want == (rows@, program_views(programs@)),
        decreases debug_line.len() - off, !done as int,
    {
        let prog_start: usize = off;
        match read_initial_length(debug_line, &mut off) {
            None => {
                done = true;
            },
            Some((length, _wide)) => {
                if length > (debug_line.len() - off) as u64 {
                    done = true;
                } else {
                    let prog_end: usize = off + length as usize;
                    let ghost before_programs = program_views(programs@);
                    match decode_program(
                        debug_line,
                        off,
                        prog_end,
                        prog_start,
                        programs.len() as u32,
                        &mut rows,
                        comp_dirs,
                    ) {
                        None => {},
                        Some(p) => {
                            let ghost pv = p@;
                            programs.push(p);
                            assert(program_views(programs@) =~= before_programs.push(pv));
                        },
                    }
                    off = prog_end;
                }
            },
        }
    }
    let sorted = sort_rows(&rows);
    proof {
        assert(rows.len() <= usize::MAX);
        law_row_sort_keeps_rows(rows@, sorted@);
    }
    Programs { rows: sorted, programs }
}

// ---- what the instructions do ----

/// The row that a program emits for its registers.
pub open spec fn row_at(pc: int, line: int, program_id: u32, file: int) -> LineRow {
    LineRow { pc: pc as u64, line: line as u32, program_id, file_idx: file as u32 }
}

/// A special opcode says by how much the line and the address move: the opcode
/// `opcode_base + (lines - line_base) + line_range * instructions` moves the
/// line by `lines` and the address by that many instructions, and emits a row
/// there. It is one byte long.
pub proof fn law_special_opcode_moves_line_and_address(
    h: HeaderView,
    b: Seq<u8>,
    program_id: u32,
    m: Machine,
    lines: int,
    instructions: int,
)
    requires
        0 <= m.off < b.len(),
        h.line_range > 0,
        h.opcode_base > 0,
        0 <= instructions,
        h.line_base <= lines < h.line_base + h.line_range,
        b[m.off] == h.opcode_base + (lines - h.line_base) + h.line_range * instructions,
        0 < m.address + h.min_inst * instructions <= u64::MAX,
        0 <= m.line + lines <= u32::MAX,
        m.file <= u32::MAX,
    ensures
        step(h, b, program_id, m) == Some(
            Machine {
                off: m.off + 1,
                address: (m.address + h.min_inst * instructions) as u64,
                line: (m.line + lines) as i64,
                rows: m.rows.push(
                    row_at(
                        m.address + h.min_inst * instructions,
                        m.line + lines,
                        program_id,
                        m.file as int,
                    ),
                ),
                ..m
            },
        ),
{
    let op = b[m.off];
    let adjusted = op - h.opcode_base;
    let l = lines - h.line_base;
    let r = h.line_range as int;
    assert(adjusted == l + r * instructions);
    assert(r * instructions >= 0) by (nonlinear_arith)
        requires
            r > 0,
            instructions >= 0,
    ;
    assert(r * instructions == instructions * r) by (nonlinear_arith);
    vstd::arithmetic::div_mod::lemma_fundamental_div_mod_converse(adjusted, r, instructions, l);
    assert(instructions * h.min_inst == h.min_inst * instructions) by (nonlinear_arith);
    assert(0 <= h.min_inst * instructions) by (nonlinear_arith)
        requires
            instructions >= 0,
    ;
    assert(h.min_inst * instructions <= u64::MAX);
    dwarf_util::law_numbers_go_round(h.min_inst * instructions);
    dwarf_util::law_numbers_go_round(m.address + h.min_inst * instructions);
    dwarf_util::law_numbers_go_round(m.line + lines);
}

/// The standard opcodes. Copying emits a row and moves nothing; advancing moves
/// the address by so many instructions, or the line by so much, up or down;
/// setting the file sets it; advancing by a constant moves the address as the
/// largest special opcode would; advancing by a fixed number moves it by so
/// many bytes. Columns, statement and block marks and the instruction set
/// change nothing that is kept.
pub proof fn law_standard_opcodes(
    h: HeaderView,
    b: Seq<u8>,
    program_id: u32,
    m: Machine,
    v: u64,
    d: i64,
    fixed: u16,
)
    requires
        0 <= m.off < b.len(),
        h.line_range > 0,
        h.opcode_base >= 13,
        m.file <= u32::MAX,
        0 <= m.line <= u32::MAX,
    ensures
        ({
            let op = b[m.off];
            let out = step(h, b, program_id, m);
            let u = dwarf_util::get_uleb(b, m.off + 1);
            let s = dwarf_util::get_sleb(b, m.off + 1);
            let w = dwarf_util::get_u16(b, m.off + 1);
            &&& op == 1 ==> out == Some(
                Machine {
                    off: m.off + 1,
                    rows: if m.address == 0 {
                        m.rows
                    } else {
                        m.rows.push(
                            row_at(m.address as int, m.line as int, program_id, m.file as int),
                        )
                    },
                    ..m
                },
            )
            &&& op == 2 && u is Some && (u->0).0 == v && m.address + h.min_inst * v <= u64::MAX
                ==> out == Some(
                Machine { off: (u->0).1, address: (m.address + h.min_inst * v) as u64, ..m },
            )
            &&& op == 3 && s is Some && (s->0).0 == d && i64::MIN <= m.line + d <= i64::MAX
                ==> out == Some(Machine { off: (s->0).1, line: (m.line + d) as i64, ..m })
            &&& op == 4 && u is Some ==> out == Some(
                Machine { off: (u->0).1, file: (u->0).0, ..m },
            )
            &&& (op == 5 || op == 12) && u is Some ==> out == Some(
                Machine { off: (u->0).1, ..m },
            )
            &&& (op == 6 || op == 7 || op == 10 || op == 11) ==> out == Some(
                Machine { off: m.off + 1, ..m },
            )
            &&& op == 8 && m.address + h.min_inst * ((255 - h.opcode_base) / h.line_range as int)
                <= u64::MAX ==> out == Some(
                Machine {
                    off: m.off + 1,
                    address: (m.address + h.min_inst * ((255 - h.opcode_base)
                        / h.line_range as int)) as u64,
                    ..m
                },
            )
            &&& op == 9 && w is Some && (w->0).0 == fixed && m.address + fixed <= u64::MAX ==> out
                == Some(Machine { off: (w->0).1, address: (m.address + fixed) as u64, ..m })
            &&& (op == 2 || op == 4 || op == 5 || op == 12) && u is None ==> out is None
            &&& op == 3 && s is None ==> out is None
            &&& op == 9 && w is None ==> out is None
        }),
{
    let op = b[m.off];
    let c = (255 - h.opcode_base) / (h.line_range as int);
    assert(0 <= h.min_inst * v && v * h.min_inst == h.min_inst * v) by (nonlinear_arith);
    assert(0 <= c) by {
        vstd::arithmetic::div_mod::lemma_div_pos_is_pos(255 - h.opcode_base, h.line_range as int);
    }
    assert(0 <= h.min_inst * c && c * h.min_inst == h.min_inst * c) by (nonlinear_arith)
        requires
            c >= 0,
    ;
    dwarf_util::law_numbers_go_round(h.min_inst * v);
    dwarf_util::law_numbers_go_round(m.address + h.min_inst * v);
    dwarf_util::law_numbers_go_round(h.min_inst * c);
    dwarf_util::law_numbers_go_round(m.address + h.min_inst * c);
    dwarf_util::law_numbers_go_round(m.address + fixed);
    dwarf_util::law_numbers_go_round(m.line + d);
}

/// The extended opcodes, behind a zero byte and their length. Ending a sequence
/// marks the first address behind it, and the registers start over; setting the
/// address sets it; defining a file adds it to the table; others are skipped by
/// their length.
pub proof fn law_extended_opcodes(
    h: HeaderView,
    b: Seq<u8>,
    program_id: u32,
    m: Machine,
    len: u64,
    o: int,
)
    requires
        0 <= m.off < b.len(),
        b[m.off] == 0,
        dwarf_util::get_uleb(b, m.off + 1) == Some((len, o)),
        len > 0,
        0 <= o < b.len() <= usize::MAX,
        o + len <= usize::MAX,
    ensures
        ({
            let out = step(h, b, program_id, m);
            let a = dwarf_util::get_u64(b, o + 1);
            let f = get_file(b, o + 1);
            &&& b[o] == 1 ==> out == Some(
                Machine {
                    off: o + 1,
                    address: 0,
                    file: 1,
                    line: 1,
                    rows: if m.address == 0 {
                        m.rows
                    } else {
                        m.rows.push(
                            LineRow {
                                pc: m.address,
                                line: 0,
                                program_id,
                                file_idx: 0xffff_ffff,
                            },
                        )
                    },
                    files: m.files,
                },
            )
            &&& b[o] == 2 ==> out == (match a {
                Some((x, e)) => Some(Machine { off: e, address: x, ..m }),
                None => None,
            })
            &&& b[o] == 3 ==> out == (match f {
                Some((x, e)) => Some(Machine { off: e, files: m.files.push(x), ..m }),
                None => None,
            })
            &&& (b[o] == 0 || b[o] > 4) ==> out == Some(Machine { off: o + len, ..m })
        }),
{
}

/// A program runs one instruction after the other up to its end, and stops
/// where the section ends inside one.
pub proof fn law_program_runs_in_order(
    h: HeaderView,
    b: Seq<u8>,
    end: int,
    program_id: u32,
    m: Machine,
)
    ensures
        m.off >= end ==> run(h, b, end, program_id, m) == (m, true),
        m.off < end ==> match step(h, b, program_id, m) {
            None => run(h, b, end, program_id, m) == (m, false),
            Some(next) => next.off > m.off ==> run(h, b, end, program_id, m) == run(
                h,
                b,
                end,
                program_id,
                next,
            ),
        },
{
}

/// A lookup gives the last row at or below the address, and nothing if that row
/// ends a sequence or there is none.
pub proof fn law_lookup_gives_the_last_row_below(rows: Seq<LineRow>, pc: u64, k: int)
    requires
        rows_sorted(rows),
        0 <= k < rows.len(),
        rows[k].pc <= pc,
        k + 1 < rows.len() ==> pc < rows[k + 1].pc,
    ensures
        covering_row(rows, pc) == (if rows[k].file_idx == 0xffff_ffff {
            None
        } else {
            Some(rows[k])
        }),
{
    assert forall|i: int| k + 1 <= i < rows.len() implies (#[trigger] rows[i]).pc > pc by {
        if i > k + 1 {
            assert(row_key(rows[k + 1]) <= row_key(rows[i]));
        }
    }
    lemma_rows_upto(rows, pc, k + 1);
}

/// Rows are sorted by address, and at one address the ends of sequences come
/// first.
pub proof fn law_row_order(rows: Seq<LineRow>, i: int, j: int)
    requires
        rows_sorted(rows),
        0 <= i < j < rows.len(),
    ensures
        rows[i].pc <= rows[j].pc,
        rows[i].pc == rows[j].pc && rows[j].file_idx == 0xffff_ffff ==> rows[i].file_idx
            == 0xffff_ffff,
{
    assert(row_key(rows[i]) <= row_key(rows[j]));
}

// ---- the tables of a program ----

/// A header as it is laid out: version, length of the rest, smallest
/// instruction, from version four on one byte more, default of the statement
/// mark, base and range of the lines, base of the opcodes, their operands.
pub open spec fn header_bytes(
    version: u16,
    rest: u32,
    min_inst: u8,
    is_stmt: u8,
    line_base: i8,
    line_range: u8,
    lengths: Seq<u8>,
) -> Seq<u8> {
    dwarf_util::le_bytes(version as nat, 2) + dwarf_util::le_bytes(rest as nat, 4) + seq![min_inst]
        + (if version >= 4 {
        seq![1u8]
    } else {
        Seq::empty()
    }) + seq![
        is_stmt,
        (line_base as int % 256) as u8,
        line_range,
        (lengths.len() + 1) as u8,
    ] + lengths
}

/// A header of a version from two to four is read as it was laid out, wherever
/// it stands; the tables follow it, and the instructions start where its length
/// says. Other versions are not read.
pub proof fn law_header_reads_back(
    b: Seq<u8>,
    o: int,
    version: u16,
    rest: u32,
    min_inst: u8,
    is_stmt: u8,
    line_base: i8,
    line_range: u8,
    lengths: Seq<u8>,
)
    requires
        0 <= o,
        line_range > 0,
        lengths.len() <= 16,
        o + header_bytes(version, rest, min_inst, is_stmt, line_base, line_range, lengths).len()
            <= b.len(),
        b.subrange(
            o,
            o + header_bytes(version, rest, min_inst, is_stmt, line_base, line_range, lengths).len(),
        ) == header_bytes(version, rest, min_inst, is_stmt, line_base, line_range, lengths),
        o + 6 + rest <= usize::MAX,
    ensures
        2 <= version <= 4 ==> get_header(b, o) == Some(
            HeaderView {
                min_inst,
                line_base,
                line_range,
                opcode_base: (lengths.len() + 1) as u8,
                std_lengths: lengths,
                tables: o + header_bytes(
                    version,
                    rest,
                    min_inst,
                    is_stmt,
                    line_base,
                    line_range,
                    lengths,
                ).len(),
                code: o + 6 + rest,
            },
        ),
        version < 2 || version > 4 ==> get_header(b, o) is None,
{
    let hb = header_bytes(version, rest, min_inst, is_stmt, line_base, line_range, lengths);
    let v2 = dwarf_util::le_bytes(version as nat, 2);
    let r4 = dwarf_util::le_bytes(rest as nat, 4);
    reveal_with_fuel(dwarf_util::le_bytes, 5);
    reveal_with_fuel(dwarf_util::pow256, 5);
    let p = if version >= 4 {
        8int
    } else {
        7int
    };
    assert(v2.len() == 2 && r4.len() == 4);
    assert(hb.len() == p + 4 + lengths.len());
    assert forall|i: int| 0 <= i < hb.len() implies #[trigger] b[o + i] == hb[i] by {
        assert(b.subrange(o, o + hb.len())[i] == b[o + i]);
    }
    assert(b.subrange(o, o + 2) =~= v2) by {
        assert(b[o + 0] == hb[0] && b[o + 1] == hb[1]);
    }
    assert(b.subrange(o + 2, o + 6) =~= r4) by {
        assert(b[o + 2] == hb[2] && b[o + 3] == hb[3] && b[o + 4] == hb[4] && b[o + 5] == hb[5]);
    }
    dwarf_util::law_little_endian_reads_back(b, o, version as nat, 2);
    dwarf_util::law_little_endian_reads_back(b, o + 2, rest as nat, 4);
    if 2 <= version <= 4 {
        assert(b[o + 6] == hb[6] && hb[6] == min_inst);
        assert(b[o + p] == hb[p]);
        assert(b[o + (p + 1)] == hb[p + 1] && hb[p + 1] == (line_base as int % 256) as u8);
        assert(b[o + (p + 2)] == hb[p + 2] && hb[p + 2] == line_range);
        assert(b[o + (p + 3)] == hb[p + 3] && hb[p + 3] == (lengths.len() + 1) as u8);
        assert(signed8((line_base as int % 256) as u8) == line_base);
        assert(b.subrange(o + p + 4, o + p + 4 + lengths.len()) =~= lengths) by {
            assert forall|i: int| 0 <= i < lengths.len() implies b.subrange(
                o + p + 4,
                o + p + 4 + lengths.len(),
            )[i] == #[trigger] lengths[i] by {
                assert(b[o + (p + 4 + i)] == hb[p + 4 + i]);
            }
        }
    }
}

/// The name of a file is put behind its directory: the compilation directory
/// for number zero, else the include directory of that number, which stands
/// below the compilation directory unless it is absolute. An absolute name
/// stands for itself.
pub proof fn law_file_path(comp: Seq<u8>, dirs: Seq<Seq<u8>>, files: Seq<FileView>, f: FileView)
    requires
        comp.len() > 0,
        comp.last() != '/' as u8,
        f.name.len() > 0,
        0 < f.dir_idx <= dirs.len() ==> dirs[f.dir_idx - 1].len() > 0 && dirs[f.dir_idx - 1].last()
            != '/' as u8,
    ensures
        ({
            let p = ProgramView { include_dirs: dirs, files, comp_dir: comp };
            let slash = seq!['/' as u8];
            &&& f.name[0] == '/' as u8 ==> file_path(p, f) == f.name
            &&& f.name[0] != '/' as u8 && f.dir_idx == 0 ==> file_path(p, f) == comp + slash
                + f.name
            &&& f.name[0] != '/' as u8 && 0 < f.dir_idx <= dirs.len() && dirs[f.dir_idx - 1][0]
                == '/' as u8 ==> file_path(p, f) == dirs[f.dir_idx - 1] + slash + f.name
            &&& f.name[0] != '/' as u8 && 0 < f.dir_idx <= dirs.len() && dirs[f.dir_idx - 1][0]
                != '/' as u8 ==> file_path(p, f) == comp + slash + dirs[f.dir_idx - 1] + slash
                + f.name
            &&& f.name[0] != '/' as u8 && f.dir_idx > dirs.len() ==> file_path(p, f) == f.name
        }),
{
    let p = ProgramView { include_dirs: dirs, files, comp_dir: comp };
    let slash = seq!['/' as u8];
    assert(comp.push(47) =~= comp + slash);
    if 0 < f.dir_idx <= dirs.len() {
        let d = dirs[f.dir_idx - 1];
        assert(d.push(47) =~= d + slash);
        assert((comp + slash + d).push(47) =~= comp + slash + d + slash);
        assert((comp + slash + d).last() == d.last());
    }
    assert(Seq::<u8>::empty() + f.name =~= f.name);
}

/// Files are numbered from one, each in its program; other numbers name none.
pub proof fn law_file_numbers(programs: Seq<ProgramView>, id: u32, n: u32)
    ensures
        id < programs.len() && 1 <= n <= programs[id as int].files.len() ==> resolved_path(
            programs,
            id,
            n,
        ) == file_path(programs[id as int], programs[id as int].files[n - 1]),
        id >= programs.len() || n == 0 || n > programs[id as int].files.len() ==> resolved_path(
            programs,
            id,
            n,
        ) == Seq::<u8>::empty(),
{
}

/// A directory table: strings, each with its NUL, and an empty one at the end.
pub open spec fn dir_table(dirs: Seq<Seq<u8>>) -> Seq<u8>
    decreases dirs.len(),
{
    if dirs.len() == 0 {
        seq![0u8]
    } else {
        dirs[0] + seq![0u8] + dir_table(dirs.drop_first())
    }
}

pub open spec fn plain_name(s: Seq<u8>) -> bool {
    s.len() > 0 && forall|i: int| 0 <= i < s.len() ==> #[trigger] s[i] != 0
}

/// A directory table is read back, wherever it stands.
pub proof fn law_directories_read_back(b: Seq<u8>, o: int, dirs: Seq<Seq<u8>>)
    requires
        0 <= o,
        o + dir_table(dirs).len() <= b.len(),
        b.subrange(o, o + dir_table(dirs).len()) == dir_table(dirs),
        forall|i: int| 0 <= i < dirs.len() ==> plain_name(#[trigger] dirs[i]),
    ensures
        get_dirs(b, o) == Some((dirs, o + dir_table(dirs).len())),
    decreases dirs.len(),
{
    let t = dir_table(dirs);
    assert forall|i: int| 0 <= i < t.len() implies #[trigger] b[o + i] == t[i] by {
        assert(b.subrange(o, o + t.len())[i] == b[o + i]);
    }
    if dirs.len() == 0 {
        assert(b[o + 0] == t[0]);
        assert(b.subrange(o, o) =~= Seq::<u8>::empty());
        dwarf_util::law_string_reads_back(b, o, Seq::empty());
        assert(dirs =~= Seq::empty());
    } else {
        let d = dirs[0];
        let rest = dirs.drop_first();
        let k = d.len() as int;
        assert(b.subrange(o, o + k) =~= d) by {
            assert forall|i: int| 0 <= i < k implies b.subrange(o, o + k)[i]
                == #[trigger] d[i] by {
                assert(b[o + i] == t[i]);
            }
        }
        assert(b[o + k] == t[k]);
        dwarf_util::law_string_reads_back(b, o, d);
        let u = dir_table(rest);
        assert(t.len() == k + 1 + u.len());
        assert(b.subrange(o + k + 1, o + k + 1 + u.len()) =~= u) by {
            assert forall|i: int| 0 <= i < u.len() implies b.subrange(
                o + k + 1,
                o + k + 1 + u.len(),
            )[i] == #[trigger] u[i] by {
                assert(b[o + (k + 1 + i)] == t[k + 1 + i]);
            }
        }
        assert forall|i: int| 0 <= i < rest.len() implies plain_name(#[trigger] rest[i]) by {
            assert(rest[i] == dirs[i + 1]);
        }
        law_directories_read_back(b, o + k + 1, rest);
        assert(seq![d] + rest =~= dirs);
    }
}

/// A file entry is its name, the number of its directory, and two numbers that
/// are not kept; it is read back, wherever it stands.
pub proof fn law_file_entry_reads_back(
    b: Seq<u8>,
    o: int,
    name: Seq<u8>,
    dir: u64,
    time: u64,
    size: u64,
)
    requires
        0 <= o,
        dir <= usize::MAX,
        plain_name(name),
        ({
            let e = name + seq![0u8] + dwarf_util::uleb_bytes(dir as nat) + dwarf_util::uleb_bytes(
                time as nat,
            ) + dwarf_util::uleb_bytes(size as nat);
            o + e.len() <= b.len() && b.subrange(o, o + e.len()) == e
        }),
    ensures
        get_file(b, o) == Some(
            (
                FileView { dir_idx: dir as usize, name },
                o + name.len() + 1 + dwarf_util::uleb_bytes(dir as nat).len()
                    + dwarf_util::uleb_bytes(time as nat).len() + dwarf_util::uleb_bytes(
                    size as nat,
                ).len(),
            ),
        ),
{
    let d = dwarf_util::uleb_bytes(dir as nat);
    let t = dwarf_util::uleb_bytes(time as nat);
    let z = dwarf_util::uleb_bytes(size as nat);
    let e = name + seq![0u8] + d + t + z;
    let k = name.len() as int;
    assert forall|i: int| 0 <= i < e.len() implies #[trigger] b[o + i] == e[i] by {
        assert(b.subrange(o, o + e.len())[i] == b[o + i]);
    }
    assert(b.subrange(o, o + k) =~= name) by {
        assert forall|i: int| 0 <= i < k implies b.subrange(o, o + k)[i] == #[trigger] name[i] by {
            assert(b[o + i] == e[i]);
        }
    }
    assert(b[o + k] == e[k]);
    dwarf_util::law_string_reads_back(b, o, name);
    let o1 = o + k + 1;
    assert(b.subrange(o1, o1 + d.len()) =~= d) by {
        assert forall|i: int| 0 <= i < d.len() implies b.subrange(o1, o1 + d.len())[i]
            == #[trigger] d[i] by {
            assert(b[o + (k + 1 + i)] == e[k + 1 + i]);
        }
    }
    dwarf_util::law_uleb_reads_back(b, o1, dir);
    let o2 = o1 + d.len();
    assert(b.subrange(o2, o2 + t.len()) =~= t) by {
        assert forall|i: int| 0 <= i < t.len() implies b.subrange(o2, o2 + t.len())[i]
            == #[trigger] t[i] by {
            assert(b[o + (k + 1 + d.len() + i)] == e[k + 1 + d.len() + i]);
        }
    }
    dwarf_util::law_uleb_reads_back(b, o2, time);
    let o3 = o2 + t.len();
    assert(b.subrange(o3, o3 + z.len()) =~= z) by {
        assert forall|i: int| 0 <= i < z.len() implies b.subrange(o3, o3 + z.len())[i]
            == #[trigger] z[i] by {
            assert(b[o + (k + 1 + d.len() + t.len() + i)] == e[k + 1 + d.len() + t.len() + i]);
        }
    }
    dwarf_util::law_uleb_reads_back(b, o3, size);
}

/// The directory of a program is the first one that was recorded for where it
/// starts.
pub proof fn law_comp_dir_is_the_first(dirs: Seq<(u64, Vec<u8>)>, start: int, k: int)
    requires
        0 <= k <= dirs.len(),
        forall|i: int| 0 <= i < k ==> (#[trigger] dirs[i]).0 != start,
        k < dirs.len() ==> dirs[k].0 == start,
    ensures
        comp_dir_of(dirs, start) == (if k < dirs.len() {
            dirs[k].1@
        } else {
            Seq::empty()
        }),
    decreases k,
{
    if k > 0 {
        let t = dirs.subrange(1, dirs.len() as int);
        assert(dirs[0].0 != start);
        assert forall|i: int| 0 <= i < k - 1 implies (#[trigger] t[i]).0 != start by {
            assert(t[i] == dirs[i + 1]);
        }
        law_comp_dir_is_the_first(t, start, k - 1);
    }
}

/// A file entry of a table.
pub struct FileLaid {
    pub name: Seq<u8>,
    pub dir: u64,
    pub time: u64,
    pub size: u64,
}

impl FileLaid {
    pub open spec fn wf(self) -> bool {
        plain_name(self.name) && self.dir <= usize::MAX
    }

    pub open spec fn bytes(self) -> Seq<u8> {
        self.name + seq![0u8] + dwarf_util::uleb_bytes(self.dir as nat) + dwarf_util::uleb_bytes(
            self.time as nat,
        ) + dwarf_util::uleb_bytes(self.size as nat)
    }
}

/// A file table: entries, and an empty name at the end.
pub open spec fn file_table(fs: Seq<FileLaid>) -> Seq<u8>
    decreases fs.len(),
{
    if fs.len() == 0 {
        seq![0u8]
    } else {
        fs[0].bytes() + file_table(fs.drop_first())
    }
}

/// A file table is read back, wherever it stands: every entry with its name and
/// the number of its directory, in their order.
pub proof fn law_files_read_back(b: Seq<u8>, o: int, fs: Seq<FileLaid>)
    requires
        0 <= o,
        o + file_table(fs).len() <= b.len(),
        b.subrange(o, o + file_table(fs).len()) == file_table(fs),
        forall|i: int| 0 <= i < fs.len() ==> (#[trigger] fs[i]).wf(),
    ensures
        get_files(b, o) == Some(
            (
                Seq::new(
                    fs.len(),
                    |i: int| FileView { dir_idx: fs[i].dir as usize, name: fs[i].name },
                ),
                o + file_table(fs).len(),
            ),
        ),
    decreases fs.len(),
{
    let t = file_table(fs);
    let want = Seq::new(
        fs.len(),
        |i: int| FileView { dir_idx: fs[i].dir as usize, name: fs[i].name },
    );
    assert forall|i: int| 0 <= i < t.len() implies #[trigger] b[o + i] == t[i] by {
        assert(b.subrange(o, o + t.len())[i] == b[o + i]);
    }
    if fs.len() == 0 {
        assert(b[o + 0] == t[0]);
        assert(b.subrange(o, o) =~= Seq::<u8>::empty());
        dwarf_util::law_string_reads_back(b, o, Seq::empty());
        assert(want =~= Seq::empty());
    } else {
        let f = fs[0];
        let e = f.bytes();
        let rest = fs.drop_first();
        let u = file_table(rest);
        let k = f.name.len() as int;
        assert(f.wf());
        assert(t.len() == e.len() + u.len());
        assert(b.subrange(o, o + e.len()) =~= e) by {
            assert forall|i: int| 0 <= i < e.len() implies b.subrange(o, o + e.len())[i]
                == #[trigger] e[i] by {
                assert(b[o + i] == t[i]);
            }
        }
        assert(b.subrange(o, o + k) =~= f.name) by {
            assert forall|i: int| 0 <= i < k implies b.subrange(o, o + k)[i]
                == #[trigger] f.name[i] by {
                assert(b[o + i] == t[i]);
                assert(e[i] == f.name[i]);
            }
        }
        assert(e[k] == 0);
        assert(b[o + k] == t[k]);
        dwarf_util::law_string_reads_back(b, o, f.name);
        law_file_entry_reads_back(b, o, f.name, f.dir, f.time, f.size);
        let next = o + e.len();
        assert(b.subrange(next, next + u.len()) =~= u) by {
            assert forall|i: int| 0 <= i < u.len() implies b.subrange(next, next + u.len())[i]
                == #[trigger] u[i] by {
                assert(b[o + (e.len() + i)] == t[e.len() + i]);
            }
        }
        assert forall|i: int| 0 <= i < rest.len() implies (#[trigger] rest[i]).wf() by {
            assert(rest[i] == fs[i + 1]);
        }
        law_files_read_back(b, next, rest);
        let tail = Seq::new(
            rest.len(),
            |i: int| FileView { dir_idx: rest[i].dir as usize, name: rest[i].name },
        );
        assert(seq![FileView { dir_idx: f.dir as usize, name: f.name }] + tail =~= want);
    }
}

/// A program starts with no address, on the first line of the first file; what
/// it leaves are its rows behind those before, its directories, its files with
/// those that it defined, and the directory that was recorded for it. One that
/// breaks off leaves its rows only.
pub proof fn law_program_starts_over(
    b: Seq<u8>,
    o: int,
    end: int,
    start: int,
    id: u32,
    rows: Seq<LineRow>,
    comp_dirs: Seq<(u64, Vec<u8>)>,
    h: HeaderView,
    dirs: Seq<Seq<u8>>,
    files: Seq<FileView>,
    o1: int,
    o2: int,
)
    requires
        get_header(b, o) == Some(h),
        get_dirs(b, h.tables) == Some((dirs, o1)),
        get_files(b, o1) == Some((files, o2)),
    ensures
        ({
            let (m, done) = run(
                h,
                b,
                end,
                id,
                Machine { off: h.code, address: 0, file: 1, line: 1, rows, files },
            );
            decode(b, o, end, start, id, rows, comp_dirs) == (
                if done {
                    Some(
                        ProgramView {
                            include_dirs: dirs,
                            files: m.files,
                            comp_dir: comp_dir_of(comp_dirs, start),
                        },
                    )
                } else {
                    None
                },
                m.rows,
            )
        }),
{
}

/// The programs of a section follow each other: each is as long as it says, is
/// numbered by those that were decoded before it, and leaves its rows to the
/// next. One that does not fit ends the section.
pub proof fn law_programs_follow_each_other(
    b: Seq<u8>,
    o: int,
    comp_dirs: Seq<(u64, Vec<u8>)>,
    rows: Seq<LineRow>,
    programs: Seq<ProgramView>,
    len: u64,
    wide: bool,
    body: int,
)
    requires
        0 <= o < b.len(),
        dwarf_util::get_initial_length(b, o) == Some(((len, wide), body)),
        o < body + len,
    ensures
        body + len > b.len() ==> decode_all(b, o, comp_dirs, rows, programs) == (rows, programs),
        body + len <= b.len() ==> ({
            let (p, after) = decode(b, body, body + len, o, programs.len() as u32, rows, comp_dirs);
            decode_all(b, o, comp_dirs, rows, programs) == decode_all(
                b,
                body + len,
                comp_dirs,
                after,
                if p is Some {
                    programs.push(p->0)
                } else {
                    programs
                },
            )
        }),
        decode_all(b, b.len() as int, comp_dirs, rows, programs) == (rows, programs),
{
}

} // verus!
