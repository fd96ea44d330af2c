//! Mach-O: load commands, the symbol table, and the DWARF sections of a
//! debug bundle.

use vstd::prelude::*;

use crate::dwarf_util::{copy_range, le16, le32, le64};
use crate::gostr::{append, copy_bytes, cut_at_nul, same_bytes, text};
use crate::line::{build, Programs};
use crate::sort::stable_order;
use crate::symtab::{SymRange, SymTable};
use crate::{dir, dwarf_util, gostr, line, sort, symtab};

verus! {

use vstd::string::StringSliceAdditionalSpecFns;

pub const MH_MAGIC_64: u32 = 0xfeed_facf;

pub const MACH_HEADER_64_SIZE: usize = 32;

pub const LC_SYMTAB: u32 = 0x2;

pub const LC_SEGMENT_64: u32 = 0x19;

pub const LC_UUID: u32 = 0x1b;

pub const SEGMENT_COMMAND_64_SIZE: usize = 72;

pub const SECTION_64_SIZE: usize = 80;

pub const S_ATTR_INSTRUCTIONS: u32 = 0x8000_0400;

pub const NLIST_64_SIZE: usize = 16;

pub const N_STAB: u8 = 0xe0;

pub const N_TYPE: u8 = 0x0e;

pub const N_SECT: u8 = 0x0e;

pub const N_EXT: u8 = 0x01;

pub struct Segment {
    pub name: Vec<u8>,
    pub vmaddr: u64,
    pub fileoff: u64,
}

pub struct Section {
    pub segname: Vec<u8>,
    pub sectname: Vec<u8>,
    pub addr: u64,
    pub size: u64,
    pub offset: u32,
    pub flags: u32,
}

pub struct LoadCommands {
    pub segments: Vec<Segment>,
    pub sections: Vec<Section>,
    /// Symbol offset and count, string offset and size.
    pub symtab: Option<(u32, u32, u32, u32)>,
    pub uuid: Option<Vec<u8>>,
}

pub struct SegmentView {
    pub name: Seq<u8>,
    pub vmaddr: u64,
    pub fileoff: u64,
}

pub struct SectionView {
    pub segname: Seq<u8>,
    pub sectname: Seq<u8>,
    pub addr: u64,
    pub size: u64,
    pub offset: u32,
    pub flags: u32,
}

#[verifier::ext_equal]
pub struct LoadView {
    pub segments: Seq<SegmentView>,
    pub sections: Seq<SectionView>,
    pub symtab: Option<(u32, u32, u32, u32)>,
    pub uuid: Option<Seq<u8>>,
}

impl View for Segment {
    type V = SegmentView;

    open spec fn view(&self) -> SegmentView {
        SegmentView { name: self.name@, vmaddr: self.vmaddr, fileoff: self.fileoff }
    }
}

impl View for Section {
    type V = SectionView;

    open spec fn view(&self) -> SectionView {
        SectionView {
            segname: self.segname@,
            sectname: self.sectname@,
            addr: self.addr,
            size: self.size,
            offset: self.offset,
            flags: self.flags,
        }
    }
}

pub open spec fn segment_views(s: Seq<Segment>) -> Seq<SegmentView> {
    Seq::new(s.len(), |i: int| s[i]@)
}

pub open spec fn section_views(s: Seq<Section>) -> Seq<SectionView> {
    Seq::new(s.len(), |i: int| s[i]@)
}

impl View for LoadCommands {
    type V = LoadView;

    open spec fn view(&self) -> LoadView {
        LoadView {
            segments: segment_views(self.segments@),
            sections: section_views(self.sections@),
            symtab: self.symtab,
            uuid: match self.uuid {
                Some(u) => Some(u@),
                None => None,
            },
        }
    }
}

pub open spec fn get32(b: Seq<u8>, o: int) -> u32 {
    dwarf_util::le_value(b, o, 4) as u32
}

pub open spec fn get64(b: Seq<u8>, o: int) -> u64 {
    dwarf_util::le_value(b, o, 8) as u64
}

/// Little-endian 32 bits at `off`, if they are all there.
pub fn rd_u32(b: &[u8], off: usize) -> (r: Option<u32>)
    ensures
        r == (if off + 4 <= b@.len() {
            Some(get32(b@, off as int))
        } else {
            None
        }),
{
    if b.len() < 4 || off > b.len() - 4 {
        return None;
    }
    Some(le32(b, off))
}

/// Little-endian 64 bits at `off`, if they are all there.
pub fn rd_u64(b: &[u8], off: usize) -> (r: Option<u64>)
    ensures
        r == (if off + 8 <= b@.len() {
            Some(get64(b@, off as int))
        } else {
            None
        }),
{
    if b.len() < 8 || off > b.len() - 8 {
        return None;
    }
    Some(le64(b, off))
}

/// Whether a NUL-padded name field holds `want`.
pub fn name16_eq(field: &[u8], want: &[u8]) -> (r: bool)
    ensures
        r == (gostr::until_nul(field@) == want@),
{
    let name = cut_at_nul(field, 0, field.len());
    assert(field@.subrange(0, field@.len() as int) =~= field@);
    same_bytes(name.as_slice(), want)
}

pub open spec fn section_at(b: Seq<u8>, s: int) -> SectionView {
    SectionView {
        sectname: b.subrange(s, s + 16),
        segname: b.subrange(s + 16, s + 32),
        addr: get64(b, s + 32),
        size: get64(b, s + 40),
        offset: get32(b, s + 48),
        flags: get32(b, s + 64),
    }
}

/// `n` section headers from `s` on, all of them below `limit`.
pub open spec fn get_sections(
    b: Seq<u8>,
    s: int,
    limit: int,
    n: nat,
    done: Seq<SectionView>,
) -> Option<Seq<SectionView>>
    decreases n,
{
    if n == 0 {
        Some(done)
    } else if s + SECTION_64_SIZE > limit {
        None
    } else {
        get_sections(b, s + SECTION_64_SIZE, limit, (n - 1) as nat, done.push(section_at(b, s)))
    }
}

/// One load command at `off` of `size` bytes, added to `lc`.
pub open spec fn get_command(b: Seq<u8>, off: int, size: int, lc: LoadView) -> Option<LoadView> {
    let cmd = get32(b, off);
    if cmd == LC_SEGMENT_64 {
        if off + 68 > b.len() {
            None
        } else {
            match get_sections(
                b,
                off + SEGMENT_COMMAND_64_SIZE,
                off + size,
                get32(b, off + 64) as nat,
                lc.sections,
            ) {
                None => None,
                Some(sections) => Some(
                    LoadView {
                        segments: lc.segments.push(
                            SegmentView {
                                name: b.subrange(off + 8, off + 24),
                                vmaddr: get64(b, off + 24),
                                fileoff: get64(b, off + 40),
                            },
                        ),
                        sections,
                        ..lc
                    },
                ),
            }
        }
    } else if cmd == LC_SYMTAB {
        if off + 24 > b.len() {
            None
        } else {
            Some(
                LoadView {
                    symtab: Some(
                        (
                            get32(b, off + 8),
                            get32(b, off + 12),
                            get32(b, off + 16),
                            get32(b, off + 20),
                        ),
                    ),
                    ..lc
                },
            )
        }
    } else if cmd == LC_UUID {
        if off + 24 > b.len() {
            None
        } else {
            Some(LoadView { uuid: Some(b.subrange(off + 8, off + 24)), ..lc })
        }
    } else {
        Some(lc)
    }
}

/// `n` load commands from `off` on, each inside the command area.
pub open spec fn get_commands(b: Seq<u8>, end: int, off: int, n: nat, lc: LoadView) -> Option<
    LoadView,
>
    decreases n,
{
    if n == 0 {
        Some(lc)
    } else if off + 8 > b.len() || get32(b, off + 4) < 8 || off + get32(b, off + 4) > end {
        None
    } else {
        match get_command(b, off, get32(b, off + 4) as int, lc) {
            None => None,
            Some(lc1) => get_commands(b, end, off + get32(b, off + 4), (n - 1) as nat, lc1),
        }
    }
}

pub open spec fn no_commands() -> LoadView {
    LoadView { segments: Seq::empty(), sections: Seq::empty(), symtab: None, uuid: None }
}

/// The load commands of a 64-bit image, or `None` when it is not one or when a
/// command does not fit.
pub open spec fn load_commands(b: Seq<u8>) -> Option<LoadView> {
    if b.len() < 24 || get32(b, 0) != MH_MAGIC_64 || MACH_HEADER_64_SIZE + get32(b, 20) > b.len() {
        None
    } else {
        get_commands(
            b,
            MACH_HEADER_64_SIZE + get32(b, 20),
            MACH_HEADER_64_SIZE as int,
            get32(b, 16) as nat,
            no_commands(),
        )
    }
}

fn read_sections(
    bytes: &[u8],
    start: usize,
    limit: usize,
    nsects: u32,
    sections: &mut Vec<Section>,
) -> (ok: bool)
    requires
        limit <= bytes.len(),
    ensures
        match get_sections(
            bytes@,
            start as int,
            limit as int,
            nsects as nat,
            section_views(old(sections)@),
        ) {
            None => !ok,
            Some(s) => ok && section_views(final(sections)@) == s,
        },
{
    let mut s: usize = start;
    let mut left: u32 = nsects;
    while left > 0
        invariant
            limit <= bytes.len(),
            get_sections(
                bytes@,
                s as int,
                limit as int,
                left as nat,
                section_views(sections@),
            ) == get_sections(
                bytes@,
                start as int,
                limit as int,
                nsects as nat,
                section_views(old(sections)@),
            ),
        decreases left,
    {
        if limit < SECTION_64_SIZE || s > limit - SECTION_64_SIZE {
            return false;
        }
        let ghost prev = section_views(sections@);
        sections.push(
            Section {
                sectname: copy_range(bytes, s, s + 16),
                segname: copy_range(bytes, s + 16, s + 32),
                addr: le64(bytes, s + 32),
                size: le64(bytes, s + 40),
                offset: le32(bytes, s + 48),
                flags: le32(bytes, s + 64),
            },
        );
        assert(section_views(sections@) =~= prev.push(section_at(bytes@, s as int)));
        s = s + SECTION_64_SIZE;
        left = left - 1;
    }
    true
}

fn read_command(bytes: &[u8], off: usize, size: usize, lc: &mut LoadCommands) -> (ok: bool)
    requires
        off + size <= bytes.len(),
        off + 8 <= bytes.len(),
    ensures
        match get_command(bytes@, off as int, size as int, old(lc)@) {
            None => !ok,
            Some(v) => ok && final(lc)@ == v,
        },
{
    let cmd: u32 = le32(bytes, off);
    let room: usize = bytes.len() - off;
    if cmd == LC_SEGMENT_64 {
        if room < 68 {
            return false;
        }
        let ghost prev = segment_views(lc.segments@);
        lc.segments.push(
            Segment {
                name: copy_range(bytes, off + 8, off + 24),
                vmaddr: le64(bytes, off + 24),
                fileoff: le64(bytes, off + 40),
            },
        );
        assert(segment_views(lc.segments@) =~= prev.push(
            SegmentView {
                name: bytes@.subrange(off + 8, off + 24),
                vmaddr: get64(bytes@, off + 24),
                fileoff: get64(bytes@, off + 40),
            },
        ));
        let nsects: u32 = le32(bytes, off + 64);
        if nsects == 0 {
            return true;
        }
        if room < SEGMENT_COMMAND_64_SIZE {
            return false;
        }
        read_sections(
            bytes,
            off + SEGMENT_COMMAND_64_SIZE,
            off + size,
            nsects,
            &mut lc.sections,
        )
    } else if cmd == LC_SYMTAB {
        if room < 24 {
            return false;
        }
        lc.symtab = Some(
            (
                le32(bytes, off + 8),
                le32(bytes, off + 12),
                le32(bytes, off + 16),
                le32(bytes, off + 20),
            ),
        );
        true
    } else if cmd == LC_UUID {
        if room < 24 {
            return false;
        }
        lc.uuid = Some(copy_range(bytes, off + 8, off + 24));
        true
    } else {
        true
    }
}

/// Reads the load commands of an image.
pub fn parse_load_commands(bytes: &[u8]) -> (r: Option<LoadCommands>)
    ensures
        match load_commands(bytes@) {
            None => r is None,
            Some(v) => r is Some && r->0@ == v,
        },
{
    if bytes.len() < 24 || le32(bytes, 0) != MH_MAGIC_64 {
        return None;
    }
    let ncmds: u32 = le32(bytes, 16);
    let sizeofcmds: u32 = le32(bytes, 20);
    if bytes.len() < MACH_HEADER_64_SIZE || sizeofcmds as usize > bytes.len()
        - MACH_HEADER_64_SIZE {
        return None;
    }
    let end: usize = MACH_HEADER_64_SIZE + sizeofcmds as usize;
    let mut lc = LoadCommands {
        segments: Vec::new(),
        sections: Vec::new(),
        symtab: None,
        uuid: None,
    };
    let mut off: usize = MACH_HEADER_64_SIZE;
    let mut left: u32 = ncmds;
    proof {
        assert(segment_views(lc.segments@) =~= Seq::empty());
        assert(section_views(lc.sections@) =~= Seq::empty());
        assert(lc@ == no_commands());
    }
    while left > 0
        invariant
            off <= end <= bytes.len(),
            load_commands(bytes@) == get_commands(
                bytes@,
                end as int,
                off as int,
                left as nat,
                lc@,
            ),
        decreases left,
    {
        if bytes.len() - off < 8 {
            return None;
        }
        let cmdsize: usize = le32(bytes, off + 4) as usize;
        if cmdsize < 8 || cmdsize > end - off {
            return None;
        }
        if !read_command(bytes, off, cmdsize, &mut lc) {
            return None;
        }
        off = off + cmdsize;
        left = left - 1;
    }
    Some(lc)
}

// ---- symbols ----

#[derive(Clone, Copy, Debug)]
pub struct RawSym {
    pub start: u64,
    /// End of the section that holds the symbol.
    pub limit: u64,
    pub name_off: u32,
    pub exported: bool,
}

/// The symbol of entry `i`, if it is a function: not a debugging entry,
/// defined in a section with instructions, and named with an underscore.
pub open spec fn get_sym(
    nlists: Seq<u8>,
    strtab: Seq<u8>,
    sections: Seq<SectionView>,
    i: int,
) -> Option<RawSym> {
    let e = 16 * i;
    let strx = get32(nlists, e);
    let ty = nlists[e + 4];
    let sect = nlists[e + 5];
    if ty & N_STAB != 0 || ty & N_TYPE != N_SECT || sect == 0 || sect - 1 >= sections.len()
        || sections[sect - 1].flags & S_ATTR_INSTRUCTIONS == 0 || strx >= strtab.len()
        || strtab[strx as int] != 95 {
        None
    } else {
        Some(
            RawSym {
                start: get64(nlists, e + 8),
                limit: (sections[sect - 1].addr + sections[sect - 1].size) as u64,
                name_off: (strx + 1) as u32,
                exported: ty & N_EXT != 0,
            },
        )
    }
}

/// The function symbols among the first `n` entries.
pub open spec fn get_syms(
    nlists: Seq<u8>,
    strtab: Seq<u8>,
    sections: Seq<SectionView>,
    n: nat,
) -> Seq<RawSym>
    decreases n,
{
    if n == 0 {
        Seq::empty()
    } else {
        let rest = get_syms(nlists, strtab, sections, (n - 1) as nat);
        match get_sym(nlists, strtab, sections, n - 1) {
            None => rest,
            Some(s) => rest.push(s),
        }
    }
}

/// Symbols sort by address, an exported one first.
pub open spec fn sym_key(s: RawSym) -> u128 {
    (2 * s.start + (if s.exported {
        0int
    } else {
        1int
    })) as u128
}

pub open spec fn sym_keys(s: Seq<RawSym>) -> Seq<u128> {
    Seq::new(s.len(), |i: int| sym_key(s[i]))
}

/// Keeps the first symbol of each address.
pub open spec fn dedup(s: Seq<RawSym>) -> Seq<RawSym>
    decreases s.len(),
{
    if s.len() == 0 {
        s
    } else {
        let d = dedup(s.drop_last());
        if d.len() > 0 && d.last().start == s.last().start {
            d
        } else {
            d.push(s.last())
        }
    }
}

/// End of symbol `i`: the end of its section, or the next symbol if nearer.
pub open spec fn sym_end(d: Seq<RawSym>, i: int) -> u64 {
    if i + 1 < d.len() && d[i + 1].start < d[i].limit {
        d[i + 1].start
    } else {
        d[i].limit
    }
}

/// The non-empty ranges of the first `n` symbols.
pub open spec fn sym_ranges(d: Seq<RawSym>, n: nat) -> Seq<SymRange>
    decreases n,
{
    if n == 0 {
        Seq::empty()
    } else {
        let rest = sym_ranges(d, (n - 1) as nat);
        if sym_end(d, n - 1) <= d[n - 1].start {
            rest
        } else {
            rest.push(
                SymRange {
                    start: d[n - 1].start,
                    end: sym_end(d, n - 1),
                    name_off: d[n - 1].name_off,
                },
            )
        }
    }
}

/// `ranges` are the ranges of the symbols `raw`, sorted and without repeats.
pub open spec fn is_symtab_of(raw: Seq<RawSym>, ranges: Seq<SymRange>) -> bool {
    exists|p: Seq<usize>|
        #[trigger] sort::is_stable_order(p, sym_keys(raw)) && ranges == sym_ranges(
            dedup(sort::permuted(raw, p)),
            dedup(sort::permuted(raw, p)).len(),
        )
}

pub open spec fn starts_sorted(s: Seq<RawSym>) -> bool {
    forall|i: int, j: int|
        0 <= i < j < s.len() ==> (#[trigger] s[i]).start <= (#[trigger] s[j]).start
}

pub open spec fn starts_strict(s: Seq<RawSym>) -> bool {
    forall|i: int, j: int|
        0 <= i < j < s.len() ==> (#[trigger] s[i]).start < (#[trigger] s[j]).start
}

proof fn lemma_dedup_strict(s: Seq<RawSym>)
    requires
        starts_sorted(s),
    ensures
        starts_strict(dedup(s)),
        s.len() > 0 ==> dedup(s).len() > 0 && dedup(s).last().start == s.last().start,
        forall|i: int|
            0 <= i < dedup(s).len() ==> s.len() > 0 && (#[trigger] dedup(s)[i]).start
                <= s.last().start,
    decreases s.len(),
{
    if s.len() > 0 {
        let t = s.drop_last();
        assert(starts_sorted(t)) by {
            assert forall|i: int, j: int| 0 <= i < j < t.len() implies (#[trigger] t[i]).start <= (
            #[trigger] t[j]).start by {
                assert(s[i].start <= s[j].start);
            }
        }
        lemma_dedup_strict(t);
        if t.len() > 0 {
            assert(s[t.len() - 1].start <= s[s.len() - 1].start);
            assert(t.last() == s[t.len() - 1]);
        }
    }
}

proof fn lemma_ranges_disjoint(d: Seq<RawSym>, n: nat)
    requires
        starts_strict(d),
        n <= d.len(),
    ensures
        symtab::ranges_disjoint(sym_ranges(d, n)),
        n < d.len() ==> forall|i: int|
            0 <= i < sym_ranges(d, n).len() ==> (#[trigger] sym_ranges(d, n)[i]).end
                <= d[n as int].start,
    decreases n,
{
    if n > 0 {
        lemma_ranges_disjoint(d, (n - 1) as nat);
        if n < d.len() {
            assert(d[n - 1].start < d[n as int].start);
        }
    }
}

/// The end of every section that holds a function symbol fits its type.
pub open spec fn sections_fit(nlists: Seq<u8>, strtab: Seq<u8>, sections: Seq<SectionView>) -> bool {
    forall|i: int|
        0 <= i < nlists.len() / 16 && (#[trigger] get_sym(nlists, strtab, sections, i)) is Some
            ==> sections[nlists[16 * i + 5] - 1].addr + sections[nlists[16 * i + 5] - 1].size
            <= u64::MAX
}

/// The section of entry `i`, if the entry is a function symbol.
fn sym_section(nlists: &[u8], strtab: &[u8], sections: &Vec<Section>, i: usize) -> (r: Option<
    usize,
>)
    requires
        16 * i + 16 <= nlists.len(),
    ensures
        r is Some <==> get_sym(nlists@, strtab@, section_views(sections@), i as int) is Some,
        r matches Some(k) ==> k == nlists@[16 * i + 5] - 1 && k < sections@.len() && get32(
            nlists@,
            16 * i,
        ) < strtab.len(),
{
    let e: usize = 16 * i;
    let strx: u32 = le32(nlists, e);
    let ty: u8 = nlists[e + 4];
    let sect: u8 = nlists[e + 5];
    if ty & N_STAB != 0 || ty & N_TYPE != N_SECT || sect == 0 {
        return None;
    }
    let k: usize = (sect - 1) as usize;
    if k >= sections.len() {
        return None;
    }
    assert(section_views(sections@)[k as int] == sections[k as int]@);
    if sections[k].flags & S_ATTR_INSTRUCTIONS == 0 {
        return None;
    }
    if strx as usize >= strtab.len() || strtab[strx as usize] != 95 {
        return None;
    }
    Some(k)
}

/// Whether the end of every section that holds a function symbol fits.
pub fn sections_ok(nlists: &[u8], strtab: &[u8], sections: &Vec<Section>) -> (r: bool)
    ensures
        r == sections_fit(nlists@, strtab@, section_views(sections@)),
{
    let n: usize = nlists.len() / NLIST_64_SIZE;
    let ghost views = section_views(sections@);
    let mut i: usize = 0;
    while i < n
        invariant
            i <= n,
            n == nlists@.len() / 16,
            views == section_views(sections@),
            forall|j: int|
                0 <= j < i && (#[trigger] get_sym(nlists@, strtab@, views, j)) is Some
                    ==> views[nlists@[16 * j + 5] - 1].addr + views[nlists@[16 * j + 5] - 1].size
                    <= u64::MAX,
        decreases n - i,
    {
        match sym_section(nlists, strtab, sections, i) {
            None => {},
            Some(k) => {
                assert(views[k as int] == sections[k as int]@);
                if sections[k].addr > u64::MAX - sections[k].size {
                    return false;
                }
            },
        }
        i = i + 1;
    }
    true
}

fn read_sym(nlists: &[u8], strtab: &[u8], sections: &Vec<Section>, i: usize) -> (r: Option<RawSym>)
    requires
        16 * i + 16 <= nlists.len(),
        strtab.len() <= u32::MAX,
        sections_fit(nlists@, strtab@, section_views(sections@)),
    ensures
        r == get_sym(nlists@, strtab@, section_views(sections@), i as int),
{
    match sym_section(nlists, strtab, sections, i) {
        None => None,
        Some(k) => {
            let e: usize = 16 * i;
            let s = &sections[k];
            proof {
                let views = section_views(sections@);
                assert(views[k as int] == s@);
                assert(get_sym(nlists@, strtab@, views, i as int) is Some);
                assert(i < nlists@.len() / 16);
            }
            Some(
                RawSym {
                    start: le64(nlists, e + 8),
                    limit: s.addr + s.size,
                    name_off: le32(nlists, e) + 1,
                    exported: nlists[e + 4] & N_EXT != 0,
                },
            )
        },
    }
}

/// The function symbols of an image, as disjoint ranges in address order.
pub fn build_symtab(nlists: &[u8], strtab: &[u8], sections: &Vec<Section>) -> (r: SymTable)
    requires
        strtab.len() <= u32::MAX,
        sections_fit(nlists@, strtab@, section_views(sections@)),
    ensures
        is_symtab_of(
            get_syms(nlists@, strtab@, section_views(sections@), nlists@.len() / 16),
            r.ranges@,
        ),
        r.wf(),
{
    let n: usize = nlists.len() / NLIST_64_SIZE;
    let mut raw: Vec<RawSym> = Vec::new();
    let mut keys: Vec<u128> = Vec::new();
    let mut i: usize = 0;
    assert(raw@ =~= Seq::empty());
    while i < n
        invariant
            i <= n,
            n == nlists@.len() / 16,
            strtab.len() <= u32::MAX,
            sections_fit(nlists@, strtab@, section_views(sections@)),
            raw@ == get_syms(nlists@, strtab@, section_views(sections@), i as nat),
            keys@ =~= sym_keys(raw@),
        decreases n - i,
    {
        match read_sym(nlists, strtab, sections, i) {
            None => {},
            Some(s) => {
                let rank: u128 = if s.exported {
                    0
                } else {
                    1
                };
                raw.push(s);
                keys.push(2 * (s.start as u128) + rank);
            },
        }
        i = i + 1;
    }
    let p = stable_order(&keys);
    let ghost sorted = sort::permuted(raw@, p@);
    proof {
        assert(starts_sorted(sorted)) by {
            assert forall|a: int, b: int| 0 <= a < b < sorted.len() implies (
            #[trigger] sorted[a]).start <= (#[trigger] sorted[b]).start by {
                assert(sort::before(keys@, p@[a], p@[b]));
            }
        }
        lemma_dedup_strict(sorted);
        lemma_ranges_disjoint(dedup(sorted), dedup(sorted).len());
    }
    let mut kept: Vec<RawSym> = Vec::new();
    let mut j: usize = 0;
    assert(sorted.subrange(0, 0) =~= Seq::empty());
    assert(kept@ =~= dedup(sorted.subrange(0, 0)));
    while j < p.len()
        invariant
            j <= p.len(),
            p.len() == raw.len(),
            sorted == sort::permuted(raw@, p@),
            forall|k: int| 0 <= k < p.len() ==> (#[trigger] p[k]) < raw.len(),
            kept@ == dedup(sorted.subrange(0, j as int)),
        decreases p.len() - j,
    {
        assert(p[j as int] < raw.len());
        let s = raw[p[j]];
        let ghost next = sorted.subrange(0, j + 1);
        assert(next.drop_last() =~= sorted.subrange(0, j as int));
        assert(next.last() == s);
        if !(kept.len() > 0 && kept[kept.len() - 1].start == s.start) {
            kept.push(s);
        }
        j = j + 1;
    }
    assert(sorted.subrange(0, j as int) =~= sorted);
    let mut ranges: Vec<SymRange> = Vec::new();
    let mut k: usize = 0;
    assert(ranges@ =~= Seq::empty());
    while k < kept.len()
        invariant
            k <= kept.len(),
            ranges@ == sym_ranges(kept@, k as nat),
        decreases kept.len() - k,
    {
        let s = kept[k];
        let end: u64 = if k + 1 < kept.len() && kept[k + 1].start < s.limit {
            kept[k + 1].start
        } else {
            s.limit
        };
        if end > s.start {
            ranges.push(SymRange { start: s.start, end, name_off: s.name_off });
        }
        k = k + 1;
    }
    SymTable { ranges }
}

// ---- the running image ----

/// Where the running image keeps its tables in memory.
pub struct ImagePlan {
    /// How far the image was moved from its link-time address.
    pub slide: u64,
    pub sym_addr: u64,
    pub nsyms: u32,
    pub str_addr: u64,
    pub strsize: u32,
    pub commands: LoadCommands,
}

pub open spec fn sub64(a: u64, b: u64) -> u64 {
    if a >= b {
        (a - b) as u64
    } else {
        (a - b + 0x1_0000_0000_0000_0000) as u64
    }
}

pub open spec fn add64(a: u64, b: u64) -> u64 {
    if a + b > u64::MAX {
        (a + b - 0x1_0000_0000_0000_0000) as u64
    } else {
        (a + b) as u64
    }
}

/// Position of the first segment of that name.
pub open spec fn find_segment(segs: Seq<SegmentView>, want: Seq<u8>) -> Option<int>
    decreases segs.len(),
{
    if segs.len() == 0 {
        None
    } else {
        match find_segment(segs.drop_last(), want) {
            Some(i) => Some(i),
            None => if gostr::until_nul(segs.last().name) == want {
                Some(segs.len() - 1)
            } else {
                None
            },
        }
    }
}

fn segment_named(segs: &Vec<Segment>, want: &[u8]) -> (r: Option<usize>)
    ensures
        match find_segment(segment_views(segs@), want@) {
            None => r is None,
            Some(i) => r is Some && r->0 == i && 0 <= i < segs.len(),
        },
{
    let ghost views = segment_views(segs@);
    let mut i: usize = 0;
    assert(views.subrange(0, 0) =~= Seq::empty());
    while i < segs.len()
        invariant
            i <= segs.len(),
            views == segment_views(segs@),
            find_segment(views.subrange(0, i as int), want@) is None,
        decreases segs.len() - i,
    {
        let ghost next = views.subrange(0, i + 1);
        proof {
            assert(next.drop_last() =~= views.subrange(0, i as int));
            assert(next.last() == segs[i as int]@);
        }
        if name16_eq(segs[i].name.as_slice(), want) {
            proof {
                lemma_find_segment_stays(views, want@, i + 1);
            }
            return Some(i);
        }
        i = i + 1;
    }
    assert(views.subrange(0, i as int) =~= views);
    None
}

proof fn lemma_find_segment_stays(segs: Seq<SegmentView>, want: Seq<u8>, n: int)
    requires
        0 <= n <= segs.len(),
        find_segment(segs.subrange(0, n), want) is Some,
    ensures
        find_segment(segs, want) == find_segment(segs.subrange(0, n), want),
    decreases segs.len(),
{
    if n < segs.len() {
        assert(segs.drop_last().subrange(0, n) =~= segs.subrange(0, n));
        lemma_find_segment_stays(segs.drop_last(), want, n);
    } else {
        assert(segs.subrange(0, n) =~= segs);
    }
}

pub open spec fn is_image_plan(lc: LoadView, base: u64, p: ImagePlan, text: int, link: int) -> bool {
    let (symoff, nsyms, stroff, strsize) = lc.symtab->0;
    let slide = sub64(base, lc.segments[text].vmaddr);
    let le_base = add64(lc.segments[link].vmaddr, slide);
    &&& p.commands@ == lc
    &&& p.slide == slide
    &&& p.sym_addr == add64(le_base, sub64(symoff as u64, lc.segments[link].fileoff))
    &&& p.str_addr == add64(le_base, sub64(stroff as u64, lc.segments[link].fileoff))
    &&& p.nsyms == nsyms
    &&& p.strsize == strsize
}

pub fn minus64(a: u64, b: u64) -> (r: u64)
    ensures
        r == sub64(a, b),
{
    if a >= b {
        a - b
    } else {
        u64::MAX - (b - a) + 1
    }
}

pub fn plus64(a: u64, b: u64) -> (r: u64)
    ensures
        r == add64(a, b),
{
    if a > u64::MAX - b {
        a - (u64::MAX - b) - 1
    } else {
        a + b
    }
}

/// Finds the symbol and string tables of the image mapped at `base`, from its
/// header. `None` without the text and link-edit segments or the symbol table.
pub fn plan_image(header: &[u8], base: u64) -> (r: Option<ImagePlan>)
    ensures
        match load_commands(header@) {
            None => r is None,
            Some(lc) => match (
                find_segment(lc.segments, "__TEXT".spec_bytes()),
                find_segment(lc.segments, "__LINKEDIT".spec_bytes()),
                lc.symtab,
            ) {
                (Some(t), Some(l), Some(_s)) => r is Some && is_image_plan(lc, base, r->0, t, l),
                _ => r is None,
            },
        },
{
    let lc = match parse_load_commands(header) {
        None => {
            return None;
        },
        Some(lc) => lc,
    };
    let t: usize = match segment_named(&lc.segments, text("__TEXT").as_slice()) {
        None => {
            return None;
        },
        Some(t) => t,
    };
    let l: usize = match segment_named(&lc.segments, text("__LINKEDIT").as_slice()) {
        None => {
            return None;
        },
        Some(l) => l,
    };
    let (symoff, nsyms, stroff, strsize) = match lc.symtab {
        None => {
            return None;
        },
        Some(s) => s,
    };
    let slide: u64 = minus64(base, lc.segments[t].vmaddr);
    let fileoff: u64 = lc.segments[l].fileoff;
    let le_base: u64 = plus64(lc.segments[l].vmaddr, slide);
    let sym_addr: u64 = plus64(le_base, minus64(symoff as u64, fileoff));
    let str_addr: u64 = plus64(le_base, minus64(stroff as u64, fileoff));
    Some(ImagePlan { slide, sym_addr, nsyms, str_addr, strsize, commands: lc })
}

// ---- the debug bundle ----

/// The directory that holds the debug files of an executable.
pub fn dsym_dir(exe: &[u8]) -> (r: Vec<u8>)
    ensures
        r@ == exe@ + ".dSYM/Contents/Resources/DWARF".spec_bytes(),
{
    let mut dir = copy_bytes(exe);
    append(&mut dir, text(".dSYM/Contents/Resources/DWARF").as_slice());
    dir
}

/// The bytes of the first DWARF section of that name; nothing when there is
/// none or when it does not lie in the file.
pub open spec fn dwarf_section(b: Seq<u8>, sections: Seq<SectionView>, want: Seq<u8>) -> Seq<u8>
    decreases sections.len(),
{
    if sections.len() == 0 {
        Seq::empty()
    } else {
        let s = sections[0];
        if gostr::until_nul(s.segname) != "__DWARF".spec_bytes() || gostr::until_nul(s.sectname) != want {
            dwarf_section(b, sections.subrange(1, sections.len() as int), want)
        } else if s.offset + s.size <= b.len() {
            b.subrange(s.offset as int, s.offset + s.size)
        } else {
            Seq::empty()
        }
    }
}

pub fn find_dwarf(bytes: &[u8], sections: &Vec<Section>, want: &[u8]) -> (r: Vec<u8>)
    ensures
        r@ == dwarf_section(bytes@, section_views(sections@), want@),
{
    let ghost views = section_views(sections@);
    let seg = text("__DWARF");
    let mut i: usize = 0;
    assert(views.subrange(0, views.len() as int) =~= views);
    while i < sections.len()
        invariant
            i <= sections.len(),
            views == section_views(sections@),
            seg@ == "__DWARF".spec_bytes(),
            dwarf_section(bytes@, views, want@) == dwarf_section(
                bytes@,
                views.subrange(i as int, views.len() as int),
                want@,
            ),
        decreases sections.len() - i,
    {
        let s = &sections[i];
        let ghost rest = views.subrange(i as int, views.len() as int);
        proof {
            assert(rest[0] == s@);
            assert(rest.subrange(1, rest.len() as int) =~= views.subrange(
                i + 1,
                views.len() as int,
            ));
        }
        if name16_eq(s.segname.as_slice(), seg.as_slice()) && name16_eq(
            s.sectname.as_slice(),
            want,
        ) {
            let len: u64 = bytes.len() as u64;
            if s.offset as u64 <= len && s.size <= len - s.offset as u64 {
                let lo: usize = s.offset as usize;
                return copy_range(bytes, lo, lo + s.size as usize);
            }
            let out: Vec<u8> = Vec::new();
            assert(out@ =~= Seq::empty());
            return out;
        }
        i = i + 1;
    }
    let out: Vec<u8> = Vec::new();
    assert(out@ =~= Seq::empty());
    out
}

/// The load commands of a debug file, if it describes the image of that
/// identifier.
pub fn match_dsym(bytes: &[u8], want_uuid: &[u8]) -> (r: Option<LoadCommands>)
    ensures
        match load_commands(bytes@) {
            Some(lc) if lc.uuid == Some(want_uuid@) => r is Some && r->0@ == lc,
            _ => r is None,
        },
{
    let lc = match parse_load_commands(bytes) {
        None => {
            return None;
        },
        Some(lc) => lc,
    };
    let same = match &lc.uuid {
        None => false,
        Some(u) => same_bytes(u.as_slice(), want_uuid),
    };
    if same {
        Some(lc)
    } else {
        None
    }
}

/// The line table of a DWARF line section, with the compilation directories
/// collected from the unit headers.
pub fn build_lines(debug_line: &[u8], comp_dirs: &[(u64, Vec<u8>)]) -> (r: Programs)
    ensures
        r.wf(),
        ({
            let (raw, programs) = line::decode_all(
                debug_line@,
                0,
                comp_dirs@,
                Seq::empty(),
                Seq::empty(),
            );
            &&& line::is_row_sort(raw, r.rows@)
            &&& line::program_views(r.programs@) == programs
        }),
{
    build(debug_line, comp_dirs)
}

/// The line table of a matched debug file.
pub fn lines_from_dwarf(bytes: &[u8], sections: &Vec<Section>, comp_dirs: &[(u64, Vec<u8>)]) -> (r:
    Programs)
    ensures
        r.wf(),
        ({
            let (raw, programs) = line::decode_all(
                dwarf_section(bytes@, section_views(sections@), "__debug_line".spec_bytes()),
                0,
                comp_dirs@,
                Seq::empty(),
                Seq::empty(),
            );
            &&& line::is_row_sort(raw, r.rows@)
            &&& line::program_views(r.programs@) == programs
        }),
{
    let line = find_dwarf(bytes, sections, text("__debug_line").as_slice());
    build_lines(line.as_slice(), comp_dirs)
}

// ---- directory blocks ----

/// The names in a block of directory records, from `i` on: every record whose
/// header and length lie in the block, without the two dot entries.
pub open spec fn block_names(b: Seq<u8>, i: int, n: int) -> Seq<Seq<u8>>
    decreases n - i,
{
    let reclen = dwarf_util::le_value(b, i + 16, 2);
    if i < 0 || i + 19 >= n || reclen == 0 || i + reclen > n || reclen < 0 {
        Seq::empty()
    } else {
        let rest = block_names(b, i + reclen, n);
        let name = if reclen >= 19 {
            gostr::until_nul(b.subrange(i + 19, i + reclen))
        } else {
            Seq::empty()
        };
        if name.len() == 0 || is_dot(name) {
            rest
        } else {
            seq![name] + rest
        }
    }
}

/// `.` and `..`.
pub open spec fn is_dot(name: Seq<u8>) -> bool {
    name == seq![46u8] || name == seq![46u8, 46u8]
}

pub fn is_dot_name(name: &Vec<u8>) -> (r: bool)
    ensures
        r == is_dot(name@),
{
    if name.len() == 1 && name[0] == 46 {
        assert(name@ =~= seq![46u8]);
        return true;
    }
    if name.len() == 2 && name[0] == 46 && name[1] == 46 {
        assert(name@ =~= seq![46u8, 46u8]);
        return true;
    }
    false
}

/// The first file from `i` on that holds the program's line numbers: an image
/// with the wanted identity.
pub open spec fn first_dsym(files: Seq<Option<Vec<u8>>>, want_uuid: Seq<u8>, i: int) -> Option<int>
    decreases files.len() - i,
{
    if i < 0 || i >= files.len() {
        None
    } else if files[i] matches Some(b) && load_commands(b@) matches Some(lc) && lc.uuid == Some(
        want_uuid,
    ) {
        Some(i)
    } else {
        first_dsym(files, want_uuid, i + 1)
    }
}

/// The lines of the first file that belongs to the program. `files` are the
/// contents of the candidates, those that could be mapped, and `comp_dirs` the
/// directories in which their units were compiled.
pub fn load_dsym_lines(
    want_uuid: &[u8],
    files: &Vec<Option<Vec<u8>>>,
    comp_dirs: &Vec<Vec<(u64, Vec<u8>)>>,
) -> (r: Option<Programs>)
    requires
        comp_dirs@.len() == files@.len(),
    ensures
        match first_dsym(files@, want_uuid@, 0) {
            None => r is None,
            Some(i) => {
                let b = files@[i]->0@;
                let (raw, programs) = line::decode_all(
                    dwarf_section(b, load_commands(b)->0.sections, "__debug_line".spec_bytes()),
                    0,
                    comp_dirs@[i]@,
                    Seq::empty(),
                    Seq::empty(),
                );
                &&& r matches Some(p) && p.wf() && line::is_row_sort(raw, p.rows@)
                    && line::program_views(p.programs@) == programs
            },
        },
{
    let mut i: usize = 0;
    while i < files.len()
        invariant
            i <= files@.len(),
            comp_dirs@.len() == files@.len(),
            first_dsym(files@, want_uuid@, 0) == first_dsym(files@, want_uuid@, i as int),
        decreases files@.len() - i,
    {
        match &files[i] {
            None => {},
            Some(b) => match match_dsym(b.as_slice(), want_uuid) {
                None => {},
                Some(lc) => {
                    return Some(
                        lines_from_dwarf(b.as_slice(), &lc.sections, comp_dirs[i].as_slice()),
                    );
                },
            },
        }
        i = i + 1;
    }
    None
}

/// Appends the names of one directory block.
pub fn list_dir(buf: &[u8], n: usize, out: &mut Vec<Vec<u8>>)
    requires
        n <= buf.len(),
    ensures
        final(out)@.len() == old(out)@.len() + block_names(buf@, 0, n as int).len(),
        forall|k: int|
            0 <= k < old(out)@.len() ==> (#[trigger] final(out)@[k])@ == old(out)@[k]@,
        forall|k: int|
            0 <= k < block_names(buf@, 0, n as int).len() ==> (#[trigger] final(out)@[old(
                out,
            )@.len() + k])@ == block_names(buf@, 0, n as int)[k],
{
    let ghost all = block_names(buf@, 0, n as int);
    let ghost old_views = line::byte_views(out@);
    let mut i: usize = 0;
    let ghost mut done: Seq<Seq<u8>> = Seq::empty();
    assert(done + block_names(buf@, 0, n as int) =~= all);
    assert(old_views + done =~= old_views);
    while n >= 20 && i <= n - 20
        invariant_except_break
            n <= buf.len(),
            all == block_names(buf@, 0, n as int),
            all == done + block_names(buf@, i as int, n as int),
            line::byte_views(out@) == old_views + done,
        ensures
            all == done,
            line::byte_views(out@) == old_views + done,
        decreases n - i,
    {
        let reclen: usize = le16(buf, i + 16) as usize;
        if reclen == 0 || reclen > n - i {
            assert(done + Seq::<Seq<u8>>::empty() =~= done);
            break;
        }
        let name = if reclen >= 19 {
            cut_at_nul(buf, i + 19, i + reclen)
        } else {
            Vec::new()
        };
        let ghost name_v = name@;
        let ghost rest = block_names(buf@, i + reclen, n as int);
        assert(reclen < 19 ==> name@ =~= Seq::empty());
        if name.len() > 0 && !is_dot_name(&name) {
            let ghost prev = out@;
            out.push(name);
            proof {
                assert(line::byte_views(out@) =~= line::byte_views(prev).push(
                    name_v,
                ));
                assert(done + (seq![name_v] + rest) =~= done.push(name_v) + rest);
                assert((old_views + done).push(name_v) =~= old_views + done.push(name_v));
                done = done.push(name_v);
            }
        }
        i = i + reclen;
        assert(done + Seq::<Seq<u8>>::empty() =~= done);
    }
    proof {
        let now = line::byte_views(out@);
        assert(now.len() == out@.len());
        assert forall|k: int| 0 <= k < old(out)@.len() implies (#[trigger] out@[k])@ == old(
            out,
        )@[k]@ by {
            assert(now[k] == old_views[k]);
        }
        assert forall|k: int| 0 <= k < all.len() implies (#[trigger] out@[old(out)@.len() + k])@
            == all[k] by {
            assert(now[old_views.len() + k] == done[k]);
        }
    }
}

// ---- what an image says ----

/// The bytes at a position are those of a number.
pub open spec fn holds_number(b: Seq<u8>, o: int, v: nat, n: nat) -> bool {
    0 <= o && o + n <= b.len() && b.subrange(o, o + n) == dwarf_util::le_bytes(v, n)
}

proof fn lemma_number(b: Seq<u8>, o: int, v: nat, n: nat)
    requires
        n == 4 || n == 8,
        n == 4 ==> v <= u32::MAX,
        n == 8 ==> v <= u64::MAX,
        holds_number(b, o, v, n),
    ensures
        n == 4 ==> get32(b, o) == v,
        n == 8 ==> get64(b, o) == v,
{
    assert(dwarf_util::pow256(4) == 0x1_0000_0000 && dwarf_util::pow256(8)
        == 0x1_0000_0000_0000_0000) by {
        reveal_with_fuel(dwarf_util::pow256, 9);
    }
    dwarf_util::law_little_endian_reads_back(b, o, v, n);
}

/// A section header is read as it is laid out: the names of the section and of
/// its segment, its address and size, where it stands in the file, and its
/// flags behind four numbers that are not kept.
pub proof fn law_section_reads_back(b: Seq<u8>, s: int, v: SectionView)
    requires
        v.sectname.len() == 16 && v.segname.len() == 16,
        0 <= s,
        s + 80 <= b.len(),
        b.subrange(s, s + 16) == v.sectname,
        b.subrange(s + 16, s + 32) == v.segname,
        holds_number(b, s + 32, v.addr as nat, 8),
        holds_number(b, s + 40, v.size as nat, 8),
        holds_number(b, s + 48, v.offset as nat, 4),
        holds_number(b, s + 64, v.flags as nat, 4),
    ensures
        section_at(b, s) == v,
{
    lemma_number(b, s + 32, v.addr as nat, 8);
    lemma_number(b, s + 40, v.size as nat, 8);
    lemma_number(b, s + 48, v.offset as nat, 4);
    lemma_number(b, s + 64, v.flags as nat, 4);
}

/// The section headers of a segment stand side by side, eighty bytes each, and
/// are all added in their order; one that does not fit spoils the image.
pub proof fn law_sections_stand_side_by_side(
    b: Seq<u8>,
    s: int,
    limit: int,
    n: nat,
    done: Seq<SectionView>,
)
    ensures
        n == 0 || s + 80 * n <= limit ==> get_sections(b, s, limit, n, done) == Some(
            done + Seq::new(n, |i: int| section_at(b, s + 80 * i)),
        ),
        n > 0 && s + 80 * n > limit ==> get_sections(b, s, limit, n, done) is None,
    decreases n,
{
    if n == 0 {
        assert(done + Seq::new(0, |i: int| section_at(b, s + 80 * i)) =~= done);
    } else {
        law_sections_stand_side_by_side(
            b,
            s + 80,
            limit,
            (n - 1) as nat,
            done.push(section_at(b, s)),
        );
        let rest = Seq::new((n - 1) as nat, |i: int| section_at(b, s + 80 + 80 * i));
        let all = Seq::new(n, |i: int| section_at(b, s + 80 * i));
        assert(done.push(section_at(b, s)) + rest =~= done + all) by {
            assert forall|i: int| 0 <= i < n - 1 implies rest[i] == #[trigger] all[i + 1] by {
                assert(s + 80 + 80 * i == s + 80 * (i + 1));
            }
            assert forall|i: int| 0 <= i < n implies (done.push(section_at(b, s)) + rest)[done.len()
                + i] == #[trigger] all[i] by {
                if i > 0 {
                    assert(rest[i - 1] == all[(i - 1) + 1]);
                }
            }
        }
    }
}

/// A load command is known by its number: a segment with its sections, a symbol
/// table, and the identity of the image are kept, others are passed over.
pub proof fn law_commands_are_known_by_number(
    b: Seq<u8>,
    off: int,
    size: int,
    lc: LoadView,
    cmd: u32,
)
    requires
        0 <= off,
        holds_number(b, off, cmd as nat, 4),
    ensures
        cmd != 0x19 && cmd != 0x2 && cmd != 0x1b ==> get_command(b, off, size, lc) == Some(lc),
        cmd == 0x1b && off + 24 <= b.len() ==> get_command(b, off, size, lc) == Some(
            LoadView { uuid: Some(b.subrange(off + 8, off + 24)), ..lc },
        ),
        forall|symoff: u32, nsyms: u32, stroff: u32, strsize: u32|
            cmd == 0x2 && #[trigger] holds_number(b, off + 8, symoff as nat, 4)
                && #[trigger] holds_number(b, off + 12, nsyms as nat, 4)
                && #[trigger] holds_number(b, off + 16, stroff as nat, 4)
                && #[trigger] holds_number(b, off + 20, strsize as nat, 4) ==> get_command(
                b,
                off,
                size,
                lc,
            ) == Some(LoadView { symtab: Some((symoff, nsyms, stroff, strsize)), ..lc }),
        forall|vmaddr: u64, fileoff: u64, nsects: u32|
            cmd == 0x19 && #[trigger] holds_number(b, off + 24, vmaddr as nat, 8)
                && #[trigger] holds_number(b, off + 40, fileoff as nat, 8)
                && #[trigger] holds_number(b, off + 64, nsects as nat, 4) && (nsects == 0 || 72 + 80
                * nsects <= size) ==> get_command(b, off, size, lc) == Some(
                LoadView {
                    segments: lc.segments.push(
                        SegmentView { name: b.subrange(off + 8, off + 24), vmaddr, fileoff },
                    ),
                    sections: lc.sections + Seq::new(
                        nsects as nat,
                        |i: int| section_at(b, off + 72 + 80 * i),
                    ),
                    ..lc
                },
            ),
{
    lemma_number(b, off, cmd as nat, 4);
    assert forall|symoff: u32, nsyms: u32, stroff: u32, strsize: u32|
        cmd == 0x2 && #[trigger] holds_number(b, off + 8, symoff as nat, 4)
            && #[trigger] holds_number(b, off + 12, nsyms as nat, 4) && #[trigger] holds_number(
            b,
            off + 16,
            stroff as nat,
            4,
        ) && #[trigger] holds_number(b, off + 20, strsize as nat, 4) implies get_command(
        b,
        off,
        size,
        lc,
    ) == Some(LoadView { symtab: Some((symoff, nsyms, stroff, strsize)), ..lc }) by {
        lemma_number(b, off + 8, symoff as nat, 4);
        lemma_number(b, off + 12, nsyms as nat, 4);
        lemma_number(b, off + 16, stroff as nat, 4);
        lemma_number(b, off + 20, strsize as nat, 4);
    }
    assert forall|vmaddr: u64, fileoff: u64, nsects: u32|
        cmd == 0x19 && #[trigger] holds_number(b, off + 24, vmaddr as nat, 8)
            && #[trigger] holds_number(b, off + 40, fileoff as nat, 8) && #[trigger] holds_number(
            b,
            off + 64,
            nsects as nat,
            4,
        ) && (nsects == 0 || 72 + 80 * nsects <= size) implies get_command(b, off, size, lc)
        == Some(
        LoadView {
            segments: lc.segments.push(
                SegmentView { name: b.subrange(off + 8, off + 24), vmaddr, fileoff },
            ),
            sections: lc.sections + Seq::new(
                nsects as nat,
                |i: int| section_at(b, off + 72 + 80 * i),
            ),
            ..lc
        },
    ) by {
        lemma_number(b, off + 24, vmaddr as nat, 8);
        lemma_number(b, off + 40, fileoff as nat, 8);
        lemma_number(b, off + 64, nsects as nat, 4);
        law_sections_stand_side_by_side(b, off + 72, off + size, nsects as nat, lc.sections);
    }
}

/// The commands follow each other, each as long as it says; one that is too
/// short or leaves the area spoils the image.
pub proof fn law_commands_follow_each_other(
    b: Seq<u8>,
    end: int,
    off: int,
    n: nat,
    lc: LoadView,
    size: u32,
)
    requires
        n > 0,
        holds_number(b, off + 4, size as nat, 4),
    ensures
        get_commands(b, end, off, 0, lc) == Some(lc),
        size < 8 || off + size > end ==> get_commands(b, end, off, n, lc) is None,
        size >= 8 && off + size <= end ==> get_commands(b, end, off, n, lc) == (match get_command(
            b,
            off,
            size as int,
            lc,
        ) {
            None => None,
            Some(next) => get_commands(b, end, off + size, (n - 1) as nat, next),
        }),
{
    lemma_number(b, off + 4, size as nat, 4);
}

/// An image starts with its magic number; the number of its commands and their
/// size follow, and the commands start behind thirty-two bytes.
pub proof fn law_image_header(b: Seq<u8>, magic: u32, ncmds: u32, size: u32)
    requires
        holds_number(b, 0, magic as nat, 4),
        holds_number(b, 16, ncmds as nat, 4),
        holds_number(b, 20, size as nat, 4),
    ensures
        magic != 0xfeed_facf ==> load_commands(b) is None,
        32 + size > b.len() ==> load_commands(b) is None,
        magic == 0xfeed_facf && 32 + size <= b.len() ==> load_commands(b) == get_commands(
            b,
            32 + size,
            32,
            ncmds as nat,
            LoadView { segments: Seq::empty(), sections: Seq::empty(), symtab: None, uuid: None },
        ),
{
    lemma_number(b, 0, magic as nat, 4);
    lemma_number(b, 16, ncmds as nat, 4);
    lemma_number(b, 20, size as nat, 4);
}

/// A symbol is a function if it is defined in a section with instructions, is
/// no debugging entry, and its name starts with an underscore, which is not
/// part of the name. It starts at its value and ends with its section at the
/// latest. The lowest bit of its type says that it is exported.
pub proof fn law_function_symbols(
    nlists: Seq<u8>,
    strtab: Seq<u8>,
    sections: Seq<SectionView>,
    i: int,
    strx: u32,
    value: u64,
)
    requires
        0 <= i,
        16 * i + 16 <= nlists.len(),
        holds_number(nlists, 16 * i, strx as nat, 4),
        holds_number(nlists, 16 * i + 8, value as nat, 8),
    ensures
        ({
            let ty = nlists[16 * i + 4];
            let sect = nlists[16 * i + 5];
            let out = get_sym(nlists, strtab, sections, i);
            let code = 1 <= sect <= sections.len() && (sections[sect - 1].flags & 0x8000_0000 != 0
                || sections[sect - 1].flags & 0x400 != 0);
            let named = strx < strtab.len() && strtab[strx as int] == '_' as u8;
            &&& (ty == 14 || ty == 15) && code && named ==> (out matches Some(s) && s.start == value
                && s.limit == (sections[sect - 1].addr + sections[sect - 1].size) as u64
                && s.name_off == (strx + 1) as u32 && s.exported == (ty == 15))
            &&& ty >= 32 || ty % 16 < 14 || !code || !named ==> out is None
        }),
{
    lemma_number(nlists, 16 * i, strx as nat, 4);
    lemma_number(nlists, 16 * i + 8, value as nat, 8);
    let ty = nlists[16 * i + 4];
    let sect = nlists[16 * i + 5];
    assert((ty & 0xe0 != 0) == (ty >= 32) && (ty & 0x0e != 0x0e) == (ty % 16 < 14) && (ty == 14
        ==> ty & 1 == 0) && (ty == 15 ==> ty & 1 != 0)) by (bit_vector);
    if 1 <= sect <= sections.len() {
        let f = sections[sect - 1].flags;
        assert((f & 0x8000_0400 != 0) == (f & 0x8000_0000 != 0 || f & 0x400 != 0)) by (bit_vector);
    }
}

/// All entries are looked at, in their order.
pub proof fn law_every_entry_is_looked_at(
    nlists: Seq<u8>,
    strtab: Seq<u8>,
    sections: Seq<SectionView>,
    n: nat,
    i: int,
)
    requires
        0 <= i < n,
    ensures
        get_sym(nlists, strtab, sections, i) matches Some(s) ==> get_syms(
            nlists,
            strtab,
            sections,
            n,
        ).contains(s),
        get_syms(nlists, strtab, sections, n).len() <= n,
    decreases n,
{
    let all = get_syms(nlists, strtab, sections, n);
    let before = get_syms(nlists, strtab, sections, (n - 1) as nat);
    if n > 1 && i < n - 1 {
        law_every_entry_is_looked_at(nlists, strtab, sections, (n - 1) as nat, i);
        if let Some(s) = get_sym(nlists, strtab, sections, i) {
            let k = choose|k: int| 0 <= k < before.len() && before[k] == s;
            assert(all[k] == s);
        }
    } else {
        lemma_syms_len(nlists, strtab, sections, (n - 1) as nat);
        if let Some(s) = get_sym(nlists, strtab, sections, i) {
            assert(all[before.len() as int] == s);
        }
    }
}

proof fn lemma_syms_len(nlists: Seq<u8>, strtab: Seq<u8>, sections: Seq<SectionView>, n: nat)
    ensures
        get_syms(nlists, strtab, sections, n).len() <= n,
    decreases n,
{
    if n > 0 {
        lemma_syms_len(nlists, strtab, sections, (n - 1) as nat);
    }
}

proof fn lemma_front_sorted(s: Seq<RawSym>)
    requires
        s.len() > 0,
        starts_sorted(s),
    ensures
        starts_sorted(s.drop_last()),
{
    let t = s.drop_last();
    assert forall|i: int, j: int| 0 <= i < j < t.len() implies (#[trigger] t[i]).start <= (
    #[trigger] t[j]).start by {
        assert(s[i].start <= s[j].start);
    }
}

/// Every symbol's address is that of a kept one.
proof fn lemma_dedup_covers(s: Seq<RawSym>, k: int) -> (j: int)
    requires
        starts_sorted(s),
        0 <= k < s.len(),
    ensures
        0 <= j < dedup(s).len(),
        dedup(s)[j].start == s[k].start,
    decreases s.len(),
{
    let t = s.drop_last();
    let d = dedup(t);
    if k < t.len() {
        lemma_front_sorted(s);
        let j = lemma_dedup_covers(t, k);
        assert(dedup(s)[j] == d[j]);
        j
    } else {
        dedup(s).len() - 1
    }
}

/// A kept symbol is the first one at its address.
proof fn lemma_dedup_origin(s: Seq<RawSym>, j: int) -> (f: int)
    requires
        starts_sorted(s),
        0 <= j < dedup(s).len(),
    ensures
        0 <= f < s.len(),
        s[f] == dedup(s)[j],
        first_at(s, f),
    decreases s.len(),
{
    let t = s.drop_last();
    let d = dedup(t);
    lemma_front_sorted(s);
    if j < d.len() {
        assert(dedup(s)[j] == d[j]);
        let f = lemma_dedup_origin(t, j);
        lemma_first_stays(s, f);
        f
    } else {
        let last = s.len() - 1;
        lemma_dedup_strict(s);
        assert(dedup(s)[j] == s[last]);
        assert forall|i: int| 0 <= i < last implies (#[trigger] s[i]).start < s[last].start by {
            let q = lemma_dedup_covers(t, i);
            assert(dedup(s)[q] == d[q]);
            assert(dedup(s)[q].start < dedup(s)[j].start);
        }
        last
    }
}

/// Where a symbol went when they were sorted.
proof fn lemma_sorted_place(raw: Seq<RawSym>, p: Seq<usize>, k: int) -> (i: int)
    requires
        sort::is_stable_order(p, sym_keys(raw)),
        0 <= k < raw.len() <= usize::MAX,
    ensures
        0 <= i < p.len(),
        sort::permuted(raw, p)[i] == raw[k],
{
    sort::lemma_order_is_permutation(p, sym_keys(raw));
    assert(p.contains(k as usize));
    let i = choose|i: int| 0 <= i < p.len() && p[i] == k as usize;
    i
}

proof fn lemma_keys_sorted(raw: Seq<RawSym>, p: Seq<usize>)
    requires
        sort::is_stable_order(p, sym_keys(raw)),
    ensures
        starts_sorted(sort::permuted(raw, p)),
        forall|i: int, j: int|
            0 <= i < j < p.len() ==> sym_key(#[trigger] sort::permuted(raw, p)[i]) <= sym_key(
                #[trigger] sort::permuted(raw, p)[j],
            ),
{
    let s = sort::permuted(raw, p);
    assert forall|i: int, j: int| 0 <= i < j < s.len() implies sym_key(#[trigger] s[i]) <= sym_key(
        #[trigger] s[j],
    ) by {
        assert(sort::before(sym_keys(raw), p[i], p[j]));
    }
    assert forall|i: int, j: int| 0 <= i < j < s.len() implies (#[trigger] s[i]).start <= (
    #[trigger] s[j]).start by {
        assert(sym_key(s[i]) <= sym_key(s[j]));
    }
}

/// The first symbol at its address.
pub open spec fn first_at(s: Seq<RawSym>, f: int) -> bool {
    forall|i: int| 0 <= i < f ==> (#[trigger] s[i]).start < s[f].start
}

proof fn lemma_first_stays(s: Seq<RawSym>, f: int)
    requires
        0 <= f < s.len() - 1,
        first_at(s.drop_last(), f),
    ensures
        first_at(s, f),
{
    let t = s.drop_last();
    assert forall|i: int| 0 <= i < f implies (#[trigger] s[i]).start < s[f].start by {
        assert(t[i].start < t[f].start);
    }
}

/// The symbol of the range that was pushed at a place.
proof fn lemma_range_origin(d: Seq<RawSym>, n: nat, k: int) -> (i: int)
    requires
        n <= d.len(),
        0 <= k < sym_ranges(d, n).len(),
    ensures
        0 <= i < n,
        sym_ranges(d, n)[k].start == d[i].start,
        sym_ranges(d, n)[k].name_off == d[i].name_off,
        sym_ranges(d, n)[k].end == sym_end(d, i),
        sym_end(d, i) > d[i].start,
    decreases n,
{
    let before = sym_ranges(d, (n - 1) as nat);
    if k < before.len() {
        lemma_range_origin(d, (n - 1) as nat, k)
    } else {
        n - 1
    }
}

/// The place of the range of a symbol that has one.
proof fn lemma_range_place(d: Seq<RawSym>, n: nat, i: int) -> (k: int)
    requires
        0 <= i < n <= d.len(),
        sym_end(d, i) > d[i].start,
    ensures
        0 <= k < sym_ranges(d, n).len(),
        sym_ranges(d, n)[k].start == d[i].start,
    decreases n,
{
    let before = sym_ranges(d, (n - 1) as nat);
    if i < n - 1 {
        lemma_range_place(d, (n - 1) as nat, i)
    } else {
        before.len() as int
    }
}

/// What a symbol table says of its symbols. Every range starts at a symbol and
/// has its name, that of an exported one if any stands there; it ends with the
/// symbol's section, or where another symbol starts if that is nearer, and no
/// symbol starts inside it.
pub proof fn law_range_is_that_of_a_symbol(raw: Seq<RawSym>, ranges: Seq<SymRange>, n: int)
    requires
        is_symtab_of(raw, ranges),
        raw.len() <= usize::MAX,
        0 <= n < ranges.len(),
    ensures
        exists|k: int| 0 <= k < raw.len() && is_range_of(raw, #[trigger] raw[k], ranges[n]),
{
    let p = choose|p: Seq<usize>|
        #[trigger] sort::is_stable_order(p, sym_keys(raw)) && ranges == sym_ranges(
            dedup(sort::permuted(raw, p)),
            dedup(sort::permuted(raw, p)).len(),
        );
    let s = sort::permuted(raw, p);
    let d = dedup(s);
    let r = ranges[n];
    lemma_keys_sorted(raw, p);
    lemma_dedup_strict(s);
    let i = lemma_range_origin(d, d.len(), n);
    let q = lemma_dedup_origin(s, i);
    let k = p[q] as int;
    assert(p[q] < raw.len());
    assert(raw[k] == d[i]);
    assert forall|j: int| 0 <= j < raw.len() implies !(r.start < (#[trigger] raw[j]).start
        < r.end) by {
        let a = lemma_sorted_place(raw, p, j);
        let b = lemma_dedup_covers(s, a);
        if b > i + 1 {
            assert(d[i + 1].start < d[b].start);
        } else if b < i {
            assert(d[b].start < d[i].start);
        }
    }
    if r.end != raw[k].limit {
        let a = lemma_dedup_origin(s, i + 1);
        assert(p[a] < raw.len());
        assert(raw[p[a] as int].start == r.end);
    }
    assert forall|j: int|
        0 <= j < raw.len() && (#[trigger] raw[j]).start == r.start && raw[j].exported implies
        raw[k].exported by {
        let a = lemma_sorted_place(raw, p, j);
        if a < q {
            assert(s[a].start < s[q].start);
        } else if a > q {
            assert(sym_key(s[q]) <= sym_key(s[a]));
        }
    }
    assert(is_range_of(raw, raw[k], r));
}

/// Every symbol that the sections leave room for has a range that starts with
/// it.
pub proof fn law_symbol_has_a_range(raw: Seq<RawSym>, ranges: Seq<SymRange>, k: int)
    requires
        is_symtab_of(raw, ranges),
        0 <= k < raw.len() <= usize::MAX,
        forall|j: int|
            0 <= j < raw.len() && (#[trigger] raw[j]).start == raw[k].start ==> raw[k].start
                < raw[j].limit,
    ensures
        exists|n: int| 0 <= n < ranges.len() && (#[trigger] ranges[n]).start == raw[k].start,
{
    let p = choose|p: Seq<usize>|
        #[trigger] sort::is_stable_order(p, sym_keys(raw)) && ranges == sym_ranges(
            dedup(sort::permuted(raw, p)),
            dedup(sort::permuted(raw, p)).len(),
        );
    let s = sort::permuted(raw, p);
    let d = dedup(s);
    lemma_keys_sorted(raw, p);
    lemma_dedup_strict(s);
    let a = lemma_sorted_place(raw, p, k);
    let b = lemma_dedup_covers(s, a);
    let q = lemma_dedup_origin(s, b);
    assert(p[q] < raw.len());
    assert(raw[p[q] as int] == d[b]);
    if b + 1 < d.len() {
        assert(d[b].start < d[b + 1].start);
    }
    let n = lemma_range_place(d, d.len(), b);
    assert(ranges[n].start == raw[k].start);
}

/// A range is that of a symbol among others.
pub open spec fn is_range_of(raw: Seq<RawSym>, s: RawSym, r: SymRange) -> bool {
    &&& r.start == s.start && r.name_off == s.name_off
    &&& r.start < r.end <= s.limit
    &&& r.end == s.limit || exists|j: int| 0 <= j < raw.len() && (#[trigger] raw[j]).start == r.end
    &&& forall|j: int| 0 <= j < raw.len() ==> !(r.start < (#[trigger] raw[j]).start < r.end)
    &&& forall|j: int|
        0 <= j < raw.len() && (#[trigger] raw[j]).start == r.start && raw[j].exported ==> s.exported
}

/// An image that was moved keeps its inner distances: what stands so far behind
/// its text when it was linked stands so far behind it in memory, and addresses
/// go round.
pub proof fn law_moved_image_keeps_distances(a: u64, b: u64)
    ensures
        add64(sub64(a, b), b) == a,
        sub64(add64(a, b), b) == a,
        a >= b ==> sub64(a, b) == a - b,
        a + b <= u64::MAX ==> add64(a, b) == a + b,
{
}

/// The first segment of a name is the one that is found; the name ends at its
/// first NUL.
pub proof fn law_first_segment_is_found(segs: Seq<SegmentView>, want: Seq<u8>, k: int)
    requires
        0 <= k < segs.len(),
        gostr::until_nul(segs[k].name) == want,
        forall|i: int| 0 <= i < k ==> gostr::until_nul((#[trigger] segs[i]).name) != want,
    ensures
        find_segment(segs, want) == Some(k),
    decreases segs.len(),
{
    let t = segs.drop_last();
    if k < segs.len() - 1 {
        law_first_segment_is_found(t, want, k);
    } else {
        lemma_no_segment(t, want);
    }
}

proof fn lemma_no_segment(segs: Seq<SegmentView>, want: Seq<u8>)
    requires
        forall|i: int| 0 <= i < segs.len() ==> gostr::until_nul((#[trigger] segs[i]).name) != want,
    ensures
        find_segment(segs, want) is None,
    decreases segs.len(),
{
    if segs.len() > 0 {
        lemma_no_segment(segs.drop_last(), want);
    }
}

/// The first DWARF section of a name is read whole, where it lies in the file.
pub proof fn law_dwarf_section_is_read(
    b: Seq<u8>,
    sections: Seq<SectionView>,
    want: Seq<u8>,
    k: int,
)
    requires
        0 <= k < sections.len(),
        gostr::until_nul(sections[k].segname) == "__DWARF".spec_bytes(),
        gostr::until_nul(sections[k].sectname) == want,
        forall|i: int|
            0 <= i < k ==> gostr::until_nul((#[trigger] sections[i]).segname)
                != "__DWARF".spec_bytes() || gostr::until_nul(sections[i].sectname) != want,
    ensures
        sections[k].offset + sections[k].size <= b.len() ==> dwarf_section(b, sections, want)
            == b.subrange(sections[k].offset as int, sections[k].offset + sections[k].size),
        sections[k].offset + sections[k].size > b.len() ==> dwarf_section(b, sections, want).len() == 0,
    decreases k,
{
    if k > 0 {
        let rest = sections.subrange(1, sections.len() as int);
        assert forall|i: int| 0 <= i < k - 1 implies gostr::until_nul((#[trigger] rest[i]).segname)
            != "__DWARF".spec_bytes() || gostr::until_nul(rest[i].sectname) != want by {
            assert(rest[i] == sections[i + 1]);
        }
        law_dwarf_section_is_read(b, rest, want, k - 1);
    }
}

/// Of the candidates the first image with the wanted identity is taken.
pub proof fn law_first_match_is_taken(
    files: Seq<Option<Vec<u8>>>,
    want_uuid: Seq<u8>,
    i: int,
    k: int,
)
    requires
        0 <= i <= k < files.len(),
        files[k] matches Some(b) && load_commands(b@) is Some && load_commands(b@)->0.uuid == Some(
            want_uuid,
        ),
        forall|j: int|
            i <= j < k ==> ((#[trigger] files[j]) matches Some(b) ==> (load_commands(b@) matches Some(
                lc,
            ) ==> lc.uuid != Some(want_uuid))),
    ensures
        first_dsym(files, want_uuid, i) == Some(k),
    decreases k - i,
{
    if i < k {
        assert(files[i] matches Some(b) ==> (load_commands(b@) matches Some(lc) ==> lc.uuid != Some(
            want_uuid,
        )));
        law_first_match_is_taken(files, want_uuid, i + 1, k);
    }
}

/// The names of records that were laid out one behind the other, in their
/// order, without the directory itself and its parent.
pub proof fn law_block_gives_its_names(b: Seq<u8>, pos: int, n: int, es: Seq<dir::Laid>)
    requires
        0 <= pos,
        n == pos + dir::laid_out(es).len(),
        n <= b.len(),
        b.subrange(pos, n) == dir::laid_out(es),
        forall|i: int| 0 <= i < es.len() ==> (#[trigger] es[i]).wf() && es[i].name.len() > 0,
    ensures
        block_names(b, pos, n) == Seq::new(
            dir::without_dots(es).len(),
            |i: int| dir::without_dots(es)[i].name,
        ),
    decreases es.len(),
{
    let names = Seq::new(dir::without_dots(es).len(), |i: int| dir::without_dots(es)[i].name);
    if es.len() == 0 {
        assert(block_names(b, pos, n) =~= names);
    } else {
        let e = es[0];
        let rest = es.drop_first();
        let next = pos + e.len();
        assert(e.wf());
        assert(e.bytes().len() == e.len());
        assert(dir::laid_out(es) == e.bytes() + dir::laid_out(rest));
        assert(b.subrange(pos, next) =~= e.bytes()) by {
            assert forall|i: int| 0 <= i < e.len() implies b[pos + i] == e.bytes()[i] by {
                assert(b.subrange(pos, n)[i] == dir::laid_out(es)[i]);
            }
        }
        assert(b.subrange(next, n) =~= dir::laid_out(rest)) by {
            assert forall|i: int| 0 <= i < n - next implies b[next + i] == dir::laid_out(rest)[i] by {
                assert(b.subrange(pos, n)[e.len() + i] == dir::laid_out(es)[e.len() + i]);
            }
        }
        dir::law_record_is_read(b, n, pos, e, false);
        assert forall|i: int| 0 <= i < rest.len() implies (#[trigger] rest[i]).wf() && rest[i].name.len()
            > 0 by {
            assert(rest[i] == es[i + 1]);
        }
        law_block_gives_its_names(b, next, n, rest);
        assert(b.subrange(pos + 19, next) =~= b.subrange(pos + 19, pos + dir::rec_len(b, pos)));
        let tail = Seq::new(dir::without_dots(rest).len(), |i: int| dir::without_dots(rest)[i].name);
        if is_dot(e.name) {
            assert(block_names(b, pos, n) =~= tail);
            assert(names =~= tail);
        } else {
            assert(block_names(b, pos, n) =~= seq![e.name] + tail);
            assert(names =~= seq![e.name] + tail);
        }
    }
}

/// The entries of a directory that stand for itself and for its parent.
pub proof fn law_dot_entries(name: Seq<u8>)
    ensures
        is_dot(seq![46u8]),
        is_dot(seq![46u8, 46u8]),
        is_dot(name) ==> 1 <= name.len() <= 2 && name[0] == 46 && name.last() == 46,
{
}

/// Where the tables of a moved image stand: at their distance from the start of
/// the last segment, which has moved as far as the first.
pub proof fn law_tables_move_with_the_image(
    lc: LoadView,
    base: u64,
    p: ImagePlan,
    text: int,
    link: int,
)
    requires
        is_image_plan(lc, base, p, text, link),
        base >= lc.segments[text].vmaddr,
        lc.segments[link].fileoff <= (lc.symtab->0).0,
        lc.segments[link].fileoff <= (lc.symtab->0).2,
        lc.segments[link].vmaddr + (base - lc.segments[text].vmaddr) + 0x1_0000_0000 <= u64::MAX,
    ensures
        p.slide + lc.segments[text].vmaddr == base,
        p.sym_addr == lc.segments[link].vmaddr + p.slide + (lc.symtab->0).0 - lc.segments[link].fileoff,
        p.str_addr == lc.segments[link].vmaddr + p.slide + (lc.symtab->0).2 - lc.segments[link].fileoff,
        p.nsyms == (lc.symtab->0).1,
        p.strsize == (lc.symtab->0).3,
        p.commands@ == lc,
{
}

/// A record that fills its block up to the last byte is read, though its name
/// has no NUL; one whose name field lies behind the block is not.
pub proof fn law_last_record_of_a_block(b: Seq<u8>, i: int, n: int)
    requires
        0 <= i,
        n <= b.len(),
    ensures
        n == i + 20 && dwarf_util::le_value(b, i + 16, 2) == 20 && b[i + 19] != 0 && b[i + 19] != 46
            ==> block_names(b, i, n) == seq![seq![b[i + 19]]],
        n <= i + 19 ==> block_names(b, i, n).len() == 0,
{
    if n == i + 20 && dwarf_util::le_value(b, i + 16, 2) == 20 && b[i + 19] != 0 && b[i + 19] != 46 {
        let name = b.subrange(i + 19, i + 20);
        assert(name =~= seq![b[i + 19]]);
        gostr::law_cut_at_the_first_nul(name, Seq::empty());
        assert(seq![b[i + 19]][0] == b[i + 19]);
        assert(!is_dot(name)) by {
            assert(name[0] != 46);
        }
        assert(block_names(b, i + 20, n) =~= Seq::empty());
        assert(seq![name] + Seq::<Seq<u8>>::empty() =~= seq![name]);
    }
}

} // verus!
