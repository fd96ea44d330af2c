//! Turns an address into a function name, a file and a line.

use vstd::prelude::*;

use crate::line::Programs;
use crate::macho::{minus64, ImagePlan};
use crate::symtab::{name_at, SymTable};
use crate::{gostr, line, macho, symtab};

verus! {

pub struct SymInfo {
    pub fn_name: [u8; 256],
    pub fn_name_len: usize,
    pub fn_offset: u64,
    pub file: [u8; 512],
    pub file_len: usize,
    pub line: u32,
}

pub open spec fn zeros(n: nat) -> Seq<u8> {
    Seq::new(n, |i: int| 0u8)
}

impl Default for SymInfo {
    fn default() -> (r: Self)
        ensures
            r.fn_name@ == zeros(256),
            r.fn_name_len == 0,
            r.fn_offset == 0,
            r.file@ == zeros(512),
            r.file_len == 0,
            r.line == 0,
    {
        let r = SymInfo {
            fn_name: [0u8;256],
            fn_name_len: 0,
            fn_offset: 0,
            file: [0u8;512],
            file_len: 0,
            line: 0,
        };
        assert(r.fn_name@ =~= zeros(256));
        assert(r.file@ =~= zeros(512));
        r
    }
}

pub struct Tables {
    pub symtab: SymTable,
    pub strtab: Vec<u8>,
    pub lines: Programs,
    /// Run-time address minus link-time address.
    pub slide: u64,
}

impl Tables {
    pub open spec fn wf(&self) -> bool {
        self.symtab.wf() && self.lines.wf()
    }
}

/// Installs freshly loaded tables, unless tables are there already or nothing
/// was loaded.
pub fn init(tables: &mut Option<Tables>, loaded: Option<Tables>)
    ensures
        *final(tables) == (if *old(tables) is Some {
            *old(tables)
        } else {
            loaded
        }),
{
    if tables.is_none() {
        *tables = loaded;
    }
}

fn lines_or_none(lines: Option<Programs>) -> (r: Programs)
    requires
        lines matches Some(l) ==> l.wf(),
    ensures
        r.wf(),
        match lines {
            Some(l) => r == l,
            None => r.rows@.len() == 0 && r.programs@.len() == 0,
        },
{
    match lines {
        Some(l) => l,
        None => Programs { rows: Vec::new(), programs: Vec::new() },
    }
}

/// The tables of a program that is mapped as a Mach-O image: its symbols, and
/// its lines where there are any.
pub fn load(plan: &ImagePlan, nlists: &[u8], strtab: Vec<u8>, lines: Option<Programs>) -> (t: Tables)
    requires
        strtab@.len() <= u32::MAX,
        macho::sections_fit(
            nlists@,
            strtab@,
            macho::section_views(plan.commands.sections@),
        ),
        lines matches Some(l) ==> l.wf(),
    ensures
        t.wf(),
        t.slide == plan.slide,
        t.strtab == strtab,
        macho::is_symtab_of(
            macho::get_syms(
                nlists@,
                strtab@,
                macho::section_views(plan.commands.sections@),
                nlists@.len() / 16,
            ),
            t.symtab.ranges@,
        ),
        match lines {
            Some(l) => t.lines == l,
            None => t.lines.rows@.len() == 0 && t.lines.programs@.len() == 0,
        },
{
    let symtab = macho::build_symtab(nlists, strtab.as_slice(), &plan.commands.sections);
    Tables { symtab, strtab, lines: lines_or_none(lines), slide: plan.slide }
}

/// The tables of a program that is mapped from an ELF file: both the symbols
/// and their names have to be there. Such a program runs where it was linked.
pub fn load_elf(symtab: Option<SymTable>, strtab: Option<Vec<u8>>, lines: Programs) -> (r: Option<
    Tables,
>)
    requires
        symtab matches Some(s) ==> s.wf(),
        lines.wf(),
    ensures
        match (symtab, strtab) {
            (Some(s), Some(n)) => r == Some(Tables { symtab: s, strtab: n, lines, slide: 0 }),
            _ => r is None,
        },
        r matches Some(t) ==> t.wf(),
{
    match (symtab, strtab) {
        (Some(s), Some(n)) => Some(Tables { symtab: s, strtab: n, lines, slide: 0 }),
        _ => None,
    }
}

/// `dst` with the beginning of `src` written over its beginning.
pub open spec fn overwritten(dst: Seq<u8>, src: Seq<u8>) -> Seq<u8> {
    if src.len() <= dst.len() {
        src + dst.subrange(src.len() as int, dst.len() as int)
    } else {
        src.subrange(0, dst.len() as int)
    }
}

pub open spec fn fitting(n: nat, room: nat) -> nat {
    if n <= room {
        n
    } else {
        room
    }
}

fn fill<const N: usize>(dst: &mut [u8; N], src: &Vec<u8>) -> (n: usize)
    ensures
        n == fitting(src@.len(), N as nat),
        final(dst)@ == overwritten(old(dst)@, src@),
{
    let n: usize = if src.len() <= N {
        src.len()
    } else {
        N
    };
    let mut i: usize = 0;
    while i < n
        invariant
            i <= n <= src.len(),
            n <= N,
            dst@.len() == N,
            old(dst)@.len() == N,
            forall|k: int| 0 <= k < i ==> #[trigger] dst@[k] == src@[k],
            forall|k: int| i <= k < N ==> #[trigger] dst@[k] == old(dst)@[k],
        decreases n - i,
    {
        dst[i] = src[i];
        i = i + 1;
    }
    assert(dst@ =~= overwritten(old(dst)@, src@));
    n
}

/// The undecoded symbol name that covers `pc`; empty when there is none.
pub open spec fn raw_symbol(t: Tables, pc: u64) -> Seq<u8> {
    match symtab::sym_at(t.symtab.ranges@, macho::sub64(pc, t.slide)) {
        Some(r) => symtab::name_bytes(t.strtab@, r.name_off),
        None => Seq::empty(),
    }
}

/// The raw name of the symbol at `pc`, for the demanglers to decode.
pub fn raw_name(t: &Tables, pc: u64) -> (r: Vec<u8>)
    requires
        t.wf(),
    ensures
        r@ == raw_symbol(*t, pc),
{
    match t.symtab.lookup(minus64(pc, t.slide)) {
        Some(r) => name_at(t.strtab.as_slice(), r.name_off),
        None => {
            let out: Vec<u8> = Vec::new();
            assert(out@ =~= Seq::empty());
            out
        },
    }
}

/// The name to show: what the demanglers made of it, or the raw name.
pub open spec fn shown_name(raw: Seq<u8>, demangled: Seq<u8>) -> Seq<u8> {
    if demangled.len() > 0 {
        demangled
    } else {
        raw
    }
}

/// `after` and `r` are what is known of an address; `before` is what was
/// filled in.
pub open spec fn symbolizes(
    tables: Option<Tables>,
    pc: u64,
    demangled: Seq<u8>,
    before: SymInfo,
    after: SymInfo,
    r: bool,
) -> bool {
    &&& r == (after.fn_name_len > 0 || after.file_len > 0)
    &&& match tables {
        None => after.fn_name_len == 0 && after.fn_offset == 0
            && after.file_len == 0 && after.line == 0 && after.fn_name@ == before.fn_name@ && after.file@ == before.file@,
        Some(t) => {
            let at = macho::sub64(pc, t.slide);
            let name = shown_name(raw_symbol(t, pc), demangled);
            &&& match symtab::sym_at(t.symtab.ranges@, at) {
                Some(s) => after.fn_name_len == fitting(name.len(), 256)
                    && after.fn_name@ == overwritten(before.fn_name@, name)
                    && after.fn_offset == at - s.start,
                None => after.fn_name_len == 0 && after.fn_name@ == before.fn_name@
                    && after.fn_offset == 0,
            }
            &&& match line::covering_row(t.lines.rows@, at) {
                Some(row) => {
                    let path = line::resolved_path(
                        line::program_views(t.lines.programs@),
                        row.program_id,
                        row.file_idx,
                    );
                    &&& after.line == row.line
                    &&& after.file_len == fitting(path.len(), 512)
                    &&& after.file@ == overwritten(before.file@, path)
                },
                None => after.line == 0 && after.file_len == 0 && after.file@
                    == before.file@,
            }
        },
    }
}

/// Fills `out` for `pc`. `demangled` is the decoded form of `raw_name`, empty
/// when no demangler knew it. Returns whether a name or a file was found.
pub fn symbolize(tables: &Option<Tables>, pc: u64, demangled: &Vec<u8>, out: &mut SymInfo) -> (r:
    bool)
    requires
        tables matches Some(t) ==> t.wf(),
    ensures
        symbolizes(*tables, pc, demangled@, *old(out), *final(out), r),
{
    out.fn_name_len = 0;
    out.file_len = 0;
    out.line = 0;
    out.fn_offset = 0;
    let t = match tables {
        None => {
            return false;
        },
        Some(t) => t,
    };
    let at: u64 = minus64(pc, t.slide);
    match t.symtab.lookup(at) {
        None => {},
        Some(s) => {
            proof {
                symtab::lemma_sym_holds(t.symtab.ranges@, at);
            }
            if demangled.len() > 0 {
                out.fn_name_len = fill(&mut out.fn_name, demangled);
            } else {
                let raw = name_at(t.strtab.as_slice(), s.name_off);
                out.fn_name_len = fill(&mut out.fn_name, &raw);
            }
            out.fn_offset = at - s.start;
        },
    }
    match t.lines.lookup(at) {
        None => {},
        Some(row) => {
            out.line = row.line;
            let path = t.lines.path_of(row.program_id, row.file_idx);
            out.file_len = fill(&mut out.file, &path);
        },
    }
    out.fn_name_len > 0 || out.file_len > 0
}

// ---- mapping a file ----

/// Progress of mapping a whole file read-only.
pub enum MapFile {
    Opening,
    Sizing { fd: i32 },
    Mapping { fd: i32, size: usize },
    /// The descriptor is closed next; then the result is final.
    Closing { fd: i32, result: Option<(usize, usize)> },
    Done { result: Option<(usize, usize)> },
}

/// What the kernel answered to the call of the current state.
pub enum MapEvent {
    Opened { fd: i32 },
    Sized { rc: i32, size: i64 },
    Mapped { base: i64 },
    Closed,
}

pub open spec fn map_next(s: MapFile, e: MapEvent) -> MapFile {
    match (s, e) {
        (MapFile::Opening, MapEvent::Opened { fd }) => if fd < 0 {
            MapFile::Done { result: None }
        } else {
            MapFile::Sizing { fd }
        },
        (MapFile::Sizing { fd }, MapEvent::Sized { rc, size }) => if rc != 0 || size <= 0 {
            MapFile::Closing { fd, result: None }
        } else {
            MapFile::Mapping { fd, size: size as usize }
        },
        (MapFile::Mapping { fd, size }, MapEvent::Mapped { base }) => MapFile::Closing {
            fd,
            result: if base <= 0 {
                None
            } else {
                Some((base as usize, size))
            },
        },
        (MapFile::Closing { fd: _, result }, MapEvent::Closed) => MapFile::Done { result },
        _ => s,
    }
}

impl MapFile {
    /// The state after an answer; an answer to another call changes nothing.
    pub fn next(self, e: MapEvent) -> (r: MapFile)
        ensures
            r == map_next(self, e),
    {
        match (self, e) {
            (MapFile::Opening, MapEvent::Opened { fd }) => if fd < 0 {
                MapFile::Done { result: None }
            } else {
                MapFile::Sizing { fd }
            },
            (MapFile::Sizing { fd }, MapEvent::Sized { rc, size }) => if rc != 0 || size <= 0 {
                MapFile::Closing { fd, result: None }
            } else {
                MapFile::Mapping { fd, size: size as usize }
            },
            (MapFile::Mapping { fd, size }, MapEvent::Mapped { base }) => {
                let result = if base <= 0 {
                    None
                } else {
                    Some((base as usize, size))
                };
                MapFile::Closing { fd, result }
            },
            (MapFile::Closing { fd: _, result }, MapEvent::Closed) => MapFile::Done { result },
            (s, _) => s,
        }
    }
}

pub open spec fn holds_fd(s: MapFile) -> Option<i32> {
    match s {
        MapFile::Sizing { fd } => Some(fd),
        MapFile::Mapping { fd, size: _ } => Some(fd),
        MapFile::Closing { fd, result: _ } => Some(fd),
        _ => None,
    }
}

/// A descriptor once opened stays the machine's own until it has been closed.
pub proof fn law_map_file_closes_what_it_opened(s: MapFile, e: MapEvent)
    requires
        holds_fd(s) is Some,
    ensures
        holds_fd(map_next(s, e)) == holds_fd(s) || (s is Closing && e is Closed),
{
}

/// A finished mapping is of positive length at a positive address.
pub proof fn law_map_file_result(s: MapFile, e: MapEvent)
    requires
        s is Mapping,
        e is Mapped,
    ensures
        map_next(s, e) matches MapFile::Closing { fd, result } && (result is Some <==> e->base > 0),
{
}

/// What is written over the beginning of a buffer is read back from it, up to
/// the buffer's end, and what stands behind it stays.
pub proof fn law_buffer_holds_what_fits(dst: Seq<u8>, src: Seq<u8>)
    ensures
        overwritten(dst, src).len() == dst.len(),
        src.len() <= dst.len() ==> fitting(src.len(), dst.len()) == src.len() && overwritten(
            dst,
            src,
        ).subrange(0, src.len() as int) == src && overwritten(dst, src).subrange(
            src.len() as int,
            dst.len() as int,
        ) == dst.subrange(src.len() as int, dst.len() as int),
        src.len() > dst.len() ==> fitting(src.len(), dst.len()) == dst.len() && overwritten(dst, src)
            == src.subrange(0, dst.len() as int),
{
    if src.len() <= dst.len() {
        let o = overwritten(dst, src);
        assert(o.subrange(0, src.len() as int) =~= src);
        assert(o.subrange(src.len() as int, dst.len() as int) =~= dst.subrange(
            src.len() as int,
            dst.len() as int,
        ));
    }
}

/// An address in a function gives the function's name, as the demanglers show it
/// if they know it and as it stands in the string table if not, and its distance
/// from the function's start, wherever the program was loaded.
pub proof fn law_function_is_named(
    t: Tables,
    i: int,
    pc: u64,
    name: Seq<u8>,
    rest: Seq<u8>,
    demangled: Seq<u8>,
    before: SymInfo,
    after: SymInfo,
    r: bool,
)
    requires
        t.wf(),
        symbolizes(Some(t), pc, demangled, before, after, r),
        0 <= i < t.symtab.ranges@.len(),
        t.symtab.ranges@[i].start + t.slide <= pc < t.symtab.ranges@[i].end + t.slide,
        t.symtab.ranges@[i].name_off <= t.strtab@.len(),
        t.strtab@.subrange(t.symtab.ranges@[i].name_off as int, t.strtab@.len() as int) == name + seq![
            0u8,
        ] + rest,
        forall|k: int| 0 <= k < name.len() ==> #[trigger] name[k] != 0,
        0 < name.len() <= 256,
        demangled.len() <= 256,
    ensures
        r,
        after.fn_offset == pc - t.slide - t.symtab.ranges@[i].start,
        demangled.len() == 0 ==> after.fn_name_len == name.len() && after.fn_name@.subrange(
            0,
            name.len() as int,
        ) == name,
        demangled.len() > 0 ==> after.fn_name_len == demangled.len() && after.fn_name@.subrange(
            0,
            demangled.len() as int,
        ) == demangled,
{
    let range = t.symtab.ranges@[i];
    let at = (pc - t.slide) as u64;
    symtab::law_every_symbol_is_found(t.symtab.ranges@, at, i);
    gostr::law_cut_at_the_first_nul(name, rest);
    law_buffer_holds_what_fits(before.fn_name@, name);
    law_buffer_holds_what_fits(before.fn_name@, demangled);
}

/// An address that a row of the line tables covers gives the row's line, and
/// the path of its file.
pub proof fn law_line_is_shown(
    t: Tables,
    pc: u64,
    row: line::LineRow,
    demangled: Seq<u8>,
    before: SymInfo,
    after: SymInfo,
    r: bool,
)
    requires
        symbolizes(Some(t), pc, demangled, before, after, r),
        t.slide <= pc,
        line::covering_row(t.lines.rows@, (pc - t.slide) as u64) == Some(row),
    ensures
        ({
            let path = line::resolved_path(
                line::program_views(t.lines.programs@),
                row.program_id,
                row.file_idx,
            );
            &&& after.line == row.line
            &&& 0 < path.len() <= 512 ==> r && after.file_len == path.len() && after.file@.subrange(
                0,
                path.len() as int,
            ) == path
            &&& path.len() > 512 ==> r && after.file_len == 512 && after.file@ == path.subrange(0, 512)
        }),
{
    let path = line::resolved_path(
        line::program_views(t.lines.programs@),
        row.program_id,
        row.file_idx,
    );
    law_buffer_holds_what_fits(before.file@, path);
}

/// Without tables, or where neither a function nor a row covers the address,
/// nothing is known of it.
pub proof fn law_unknown_address(
    tables: Option<Tables>,
    pc: u64,
    demangled: Seq<u8>,
    before: SymInfo,
    after: SymInfo,
    r: bool,
)
    requires
        symbolizes(tables, pc, demangled, before, after, r),
        tables matches Some(t) ==> symtab::sym_at(t.symtab.ranges@, macho::sub64(pc, t.slide)) is None
            && line::covering_row(t.lines.rows@, macho::sub64(pc, t.slide)) is None,
    ensures
        !r,
        after.fn_name_len == 0 && after.file_len == 0 && after.line == 0 && after.fn_offset == 0,
{
}

/// A file that can be opened, sized and mapped is mapped whole and closed; a
/// step that fails leaves nothing mapped, and a file that was opened is closed
/// all the same.
pub proof fn law_file_is_mapped(fd: i32, rc: i32, size: i64, base: i64)
    requires
        size <= usize::MAX,
        base <= usize::MAX,
    ensures
        fd < 0 ==> map_next(MapFile::Opening, MapEvent::Opened { fd }) == (MapFile::Done {
            result: None,
        }),
        fd >= 0 ==> {
            let opened = map_next(MapFile::Opening, MapEvent::Opened { fd });
            let sized = map_next(opened, MapEvent::Sized { rc, size });
            let mapped = map_next(sized, MapEvent::Mapped { base });
            &&& rc != 0 || size <= 0 ==> map_next(sized, MapEvent::Closed) == (MapFile::Done {
                result: None,
            })
            &&& rc == 0 && size > 0 && base <= 0 ==> map_next(mapped, MapEvent::Closed) == (
            MapFile::Done { result: None })
            &&& rc == 0 && size > 0 && base > 0 ==> (map_next(mapped, MapEvent::Closed) matches
                MapFile::Done { result: Some((b, n)) } && b == base && n == size)
        },
{
}

} // verus!
