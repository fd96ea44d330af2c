//! A file system rooted at a directory.

use vstd::prelude::*;

use crate::errors::{pathErr, Cause, Error};
use crate::file::{File, FileOp};
use crate::gostr::{append, copy_bytes, is_utf8, text};
use crate::fileinfo::FileMode;
use crate::os::{OpenOp, StatOp};
use crate::syscall::{Call, Target, O_RDONLY};
use crate::{dir, file, gostr, os, readfile};

verus! {

use crate::errors::{CauseView, ErrorView};

/// The elements of a slash-separated path.
pub open spec fn elements(s: Seq<u8>) -> Seq<Seq<u8>>
    decreases s.len(),
{
    let e = first_element(s);
    if e.len() >= s.len() {
        seq![e]
    } else {
        seq![e] + elements(s.subrange(e.len() as int + 1, s.len() as int))
    }
}

pub open spec fn first_element(s: Seq<u8>) -> Seq<u8>
    decreases s.len(),
{
    if s.len() == 0 || s[0] == 47 {
        Seq::empty()
    } else {
        seq![s[0]] + first_element(s.subrange(1, s.len() as int))
    }
}

/// An element that leads one directory down.
pub open spec fn plain_element(e: Seq<u8>) -> bool {
    e.len() > 0 && e != seq![46u8] && e != seq![46u8, 46u8]
}

/// A path that a file system accepts: UTF-8, and either the root itself or
/// plain elements only.
pub open spec fn valid_path(name: Seq<u8>) -> bool {
    vstd::utf8::valid_utf8(name) && (name == seq![46u8] || forall|i: int|
        0 <= i < elements(name).len() ==> plain_element(#[trigger] elements(name)[i]))
}

proof fn lemma_first_element(s: Seq<u8>, n: int)
    requires
        0 <= n <= s.len(),
        forall|i: int| 0 <= i < n ==> #[trigger] s[i] != 47,
        n < s.len() ==> s[n] == 47,
    ensures
        first_element(s) == s.subrange(0, n),
    decreases s.len(),
{
    if n > 0 {
        let t = s.subrange(1, s.len() as int);
        assert forall|i: int| 0 <= i < n - 1 implies #[trigger] t[i] != 47 by {
            assert(t[i] == s[i + 1]);
        }
        lemma_first_element(t, n - 1);
        assert(seq![s[0]] + t.subrange(0, n - 1) =~= s.subrange(0, n));
    } else {
        assert(s.subrange(0, 0) =~= Seq::empty());
    }
}

spec fn all_plain(es: Seq<Seq<u8>>) -> bool {
    forall|i: int| 0 <= i < es.len() ==> plain_element(#[trigger] es[i])
}

proof fn lemma_all_plain_cons(e: Seq<u8>, es: Seq<Seq<u8>>)
    ensures
        all_plain(seq![e] + es) == (plain_element(e) && all_plain(es)),
{
    let l = seq![e] + es;
    assert(l[0] == e);
    if all_plain(l) {
        assert forall|i: int| 0 <= i < es.len() implies plain_element(#[trigger] es[i]) by {
            assert(l[i + 1] == es[i]);
        }
    }
    if plain_element(e) && all_plain(es) {
        assert forall|i: int| 0 <= i < l.len() implies plain_element(#[trigger] l[i]) by {
            if i > 0 {
                assert(l[i] == es[i - 1]);
            }
        }
    }
}

/// Whether a file system accepts a path.
pub fn ValidPath(name: &Vec<u8>) -> (r: bool)
    ensures
        r == valid_path(name@),
{
    if !is_utf8(name.as_slice()) {
        return false;
    }
    if name.len() == 1 && name[0] == 46 {
        assert(name@ =~= seq![46u8]);
        return true;
    }
    let mut start: usize = 0;
    assert(name@.subrange(0, name@.len() as int) =~= name@);
    loop
        invariant
            start <= name.len(),
            name@ != seq![46u8],
            vstd::utf8::valid_utf8(name@),
            all_plain(elements(name@)) == all_plain(
                elements(name@.subrange(start as int, name@.len() as int)),
            ),
        decreases name.len() - start,
    {
        let ghost s = name@.subrange(start as int, name@.len() as int);
        let mut i: usize = start;
        while i < name.len() && name[i] != 47
            invariant
                start <= i <= name.len(),
                s == name@.subrange(start as int, name@.len() as int),
                forall|k: int| 0 <= k < i - start ==> #[trigger] s[k] != 47,
            decreases name.len() - i,
        {
            i = i + 1;
        }
        let ghost e = s.subrange(0, i - start);
        proof {
            lemma_first_element(s, i - start);
        }
        let n: usize = i - start;
        let plain = n > 0 && !(n == 1 && name[start] == 46) && !(n == 2 && name[start] == 46
            && name[start + 1] == 46);
        proof {
            if n == 1 && s[0] == 46 {
                assert(e =~= seq![46u8]);
            }
            if n == 2 && s[0] == 46 && s[1] == 46 {
                assert(e =~= seq![46u8, 46u8]);
            }
            if e == seq![46u8] {
                assert(e.len() == 1 && e[0] == 46);
            }
            if e == seq![46u8, 46u8] {
                assert(e.len() == 2 && e[0] == 46 && e[1] == 46);
            }
            assert(n > 0 ==> e[0] == name@[start as int]);
            assert(n > 1 ==> e[1] == name@[start + 1]);
            assert(plain == plain_element(e));
        }
        if i == name.len() {
            assert(elements(s) =~= seq![e] + Seq::<Seq<u8>>::empty());
            proof {
                lemma_all_plain_cons(e, Seq::empty());
            }
            return plain;
        }
        proof {
            assert(s.subrange(n + 1, s.len() as int) =~= name@.subrange(
                i + 1,
                name@.len() as int,
            ));
            lemma_all_plain_cons(e, elements(name@.subrange(i + 1, name@.len() as int)));
        }
        if !plain {
            return false;
        }
        start = i + 1;
    }
}

/// The files below a directory.
pub struct DirFs {
    pub dir: Vec<u8>,
}

/// Whether a byte string holds a NUL.
pub open spec fn has_nul(s: Seq<u8>) -> bool {
    exists|i: int| 0 <= i < s.len() && #[trigger] s[i] == 0
}

fn contains_nul(s: &Vec<u8>) -> (r: bool)
    ensures
        r == has_nul(s@),
{
    let mut i: usize = 0;
    while i < s.len()
        invariant
            i <= s.len(),
            forall|k: int| 0 <= k < i ==> #[trigger] s@[k] != 0,
        decreases s.len() - i,
    {
        if s[i] == 0 {
            assert(s@[i as int] == 0);
            return true;
        }
        i = i + 1;
    }
    false
}

/// The path of a name below a directory.
pub open spec fn below(dir: Seq<u8>, name: Seq<u8>) -> Seq<u8> {
    if name == seq![46u8] {
        dir
    } else if dir.len() > 0 && dir.last() == 47 {
        dir + name
    } else {
        dir.push(47) + name
    }
}

/// Why a name below a directory is refused, if it is: the root is empty, or
/// the name is not a valid path or holds a NUL.
pub open spec fn refusal(dir: Seq<u8>, op: Seq<u8>, name: Seq<u8>) -> Option<ErrorView> {
    if dir.len() == 0 {
        Some(
            ErrorView::Path {
                op,
                path: name,
                err: CauseView::Message(gostr::lit("os: DirFS with empty root")),
            },
        )
    } else if !valid_path(name) || has_nul(name) {
        Some(ErrorView::Path { op, path: name, err: CauseView::Invalid })
    } else {
        None
    }
}

pub fn DirFS(dir: Vec<u8>) -> (r: DirFs)
    ensures
        r.dir == dir,
{
    DirFs { dir }
}

impl DirFs {
    /// The path of `name` below the root. An empty root, and a name that is
    /// not a valid path or holds a NUL, are refused.
    pub fn join(&self, op: &str, name: &Vec<u8>) -> (r: Result<Vec<u8>, Error>)
        ensures
            match refusal(self.dir@, gostr::lit(op), name@) {
                Some(v) => r matches Err(e) && e@ == v,
                None => r matches Ok(p) && p@ == below(self.dir@, name@),
            },
    {
        if self.dir.len() == 0 {
            return Err(
                pathErr(
                    text(op).as_slice(),
                    name.as_slice(),
                    Cause::Message(text("os: DirFS with empty root")),
                ),
            );
        }
        if !ValidPath(name) || contains_nul(name) {
            return Err(pathErr(text(op).as_slice(), name.as_slice(), Cause::Invalid));
        }
        if name.len() == 1 && name[0] == 46 {
            assert(name@ =~= seq![46u8]);
            return Ok(copy_bytes(self.dir.as_slice()));
        }
        let mut joined = copy_bytes(self.dir.as_slice());
        if joined[joined.len() - 1] != 47 {
            joined.push(47);
        }
        append(&mut joined, name.as_slice());
        Ok(joined)
    }

    /// Opens a file below the root for reading.
    pub fn Open(&self, t: Target, name: &Vec<u8>) -> (r: Result<(Call, OpenOp), Error>)
        ensures
            opens_below(r, t, self.dir@, gostr::lit("open"), name@),
    {
        match self.join("open", name) {
            Ok(full) => Ok(os::Open(t, &full)),
            Err(e) => Err(e),
        }
    }

    /// Examines a file below the root.
    pub fn Stat(&self, name: &Vec<u8>) -> (r: Result<(Call, StatOp), Error>)
        ensures
            match (r, refusal(self.dir@, gostr::lit("stat"), name@)) {
                (Err(e), Some(v)) => e@ == v,
                (Ok((c, o)), None) => {
                    &&& c matches Call::Stat { path } && path@ == gostr::c_path(
                        below(self.dir@, name@),
                    )
                    &&& o.is(gostr::lit("stat"), below(self.dir@, name@))
                },
                _ => false,
            },
    {
        match self.join("stat", name) {
            Ok(full) => Ok(os::Stat(&full)),
            Err(e) => Err(e),
        }
    }

    /// Opens a file below the root to be read whole.
    pub fn ReadFile(&self, t: Target, name: &Vec<u8>) -> (r: Result<(Call, OpenOp), Error>)
        ensures
            opens_below(r, t, self.dir@, gostr::lit("readfile"), name@),
    {
        match self.join("readfile", name) {
            Ok(full) => Ok(readfile::ReadFile(t, &full)),
            Err(e) => Err(e),
        }
    }

    /// Opens a directory below the root to be listed.
    pub fn ReadDir(&self, t: Target, name: &Vec<u8>) -> (r: Result<(Call, OpenOp), Error>)
        ensures
            opens_below(r, t, self.dir@, gostr::lit("readdir"), name@),
    {
        match self.join("readdir", name) {
            Ok(full) => Ok(dir::ReadDir(t, &full)),
            Err(e) => Err(e),
        }
    }
}

/// A name below a directory is opened for reading, or refused.
pub open spec fn opens_below(
    r: Result<(Call, OpenOp), Error>,
    t: Target,
    dir: Seq<u8>,
    op: Seq<u8>,
    name: Seq<u8>,
) -> bool {
    match (r, refusal(dir, op, name)) {
        (Err(e), Some(v)) => e@ == v,
        (Ok((c, o)), None) => os::opens(c, t, below(dir, name), O_RDONLY, FileMode(0))
            && o.name@ == below(dir, name),
        _ => false,
    }
}

/// An accepted name stays below the root: it begins with the root, and none of
/// its elements leads up.
pub proof fn law_join_stays_below(dir: Seq<u8>, name: Seq<u8>)
    requires
        dir.len() > 0,
        valid_path(name),
    ensures
        below(dir, name).len() >= dir.len(),
        below(dir, name).subrange(0, dir.len() as int) == dir,
        name != seq![46u8] ==> forall|i: int|
            0 <= i < elements(name).len() ==> #[trigger] elements(name)[i] != seq![46u8, 46u8],
{
    assert(below(dir, name).subrange(0, dir.len() as int) =~= dir);
}

/// A file of a rooted file system; it can be closed once.
pub struct DirFsFile {
    pub inner: Option<File>,
}

impl DirFsFile {
    /// The file, or that it is closed.
    pub fn get(&self) -> (r: Result<&File, Error>)
        ensures
            match self.inner {
                Some(f) => r matches Ok(x) && *x == f,
                None => r matches Err(e) && e@ == ErrorView::Bare(CauseView::Closed),
            },
    {
        match &self.inner {
            Some(f) => Ok(f),
            None => Err(Error::Bare(Cause::Closed)),
        }
    }

    /// Examines the file.
    pub fn Stat(&self) -> (r: Result<(Call, FileOp), Error>)
        ensures
            match (self.inner, r) {
                (Some(f), Ok((c, o))) => c == (Call::Fstat { fd: f.fd }) && o.is(
                    gostr::lit("stat"),
                    f.name@,
                    f.fd,
                ),
                (None, Err(e)) => e@ == ErrorView::Bare(CauseView::Closed),
                _ => false,
            },
    {
        match self.get() {
            Ok(f) => Ok(f.Stat()),
            Err(e) => Err(e),
        }
    }

    /// Reads up to `len` bytes.
    pub fn Read(&self, len: usize) -> (r: Result<(Call, FileOp), Error>)
        ensures
            match (self.inner, r) {
                (Some(f), Ok((c, o))) => c == (Call::Read { fd: f.fd, len }) && o.is(
                    gostr::lit("read"),
                    f.name@,
                    f.fd,
                ),
                (None, Err(e)) => e@ == ErrorView::Bare(CauseView::Closed),
                _ => false,
            },
    {
        match self.get() {
            Ok(f) => Ok(f.Read(len)),
            Err(e) => Err(e),
        }
    }

    /// Gives the file up and closes it; a second close is refused.
    pub fn Close(&mut self) -> (r: Result<(Call, FileOp), Error>)
        ensures
            final(self).inner is None,
            match old(self).inner {
                Some(f) => file::on_open_file(
                    r,
                    f,
                    gostr::lit("close"),
                    r->Ok_0.0 == (Call::Close { fd: f.fd }),
                ),
                None => r matches Err(e) && e@ == ErrorView::Bare(CauseView::Closed),
            },
    {
        match self.inner.take() {
            Some(f) => {
                let mut file = f;
                file.Close()
            },
            None => Err(Error::Bare(Cause::Closed)),
        }
    }
}

/// Elements, with a slash between each two.
pub open spec fn slashed(es: Seq<Seq<u8>>) -> Seq<u8>
    decreases es.len(),
{
    if es.len() == 0 {
        Seq::empty()
    } else if es.len() == 1 {
        es[0]
    } else {
        es[0] + seq![47u8] + slashed(es.subrange(1, es.len() as int))
    }
}

/// A path is taken apart at its slashes: the elements are those that were put
/// together.
pub proof fn law_path_is_its_elements(es: Seq<Seq<u8>>)
    requires
        es.len() > 0,
        forall|i: int, j: int| 0 <= i < es.len() && 0 <= j < es[i].len() ==> es[i][j] != 47,
    ensures
        elements(slashed(es)) == es,
    decreases es.len(),
{
    let s = slashed(es);
    let n = es[0].len() as int;
    assert forall|j: int| 0 <= j < n implies #[trigger] s[j] != 47 by {
        assert(s[j] == es[0][j]);
    }
    lemma_first_element(s, n);
    assert(s.subrange(0, n) =~= es[0]);
    if es.len() == 1 {
        assert(es =~= seq![es[0]]);
    } else {
        let rest = es.subrange(1, es.len() as int);
        assert forall|i: int, j: int| 0 <= i < rest.len() && 0 <= j < rest[i].len() implies rest[i][j]
            != 47 by {
            assert(rest[i] == es[i + 1]);
        }
        law_path_is_its_elements(rest);
        assert(s.subrange(n + 1, s.len() as int) =~= slashed(rest));
        assert(es =~= seq![es[0]] + rest);
    }
}

/// A name is accepted exactly if it is text and either `.` or made of elements
/// of which none is empty, `.` or `..`.
pub proof fn law_accepted_names(es: Seq<Seq<u8>>, i: int)
    requires
        es.len() > 0,
        forall|i: int, j: int| 0 <= i < es.len() && 0 <= j < es[i].len() ==> es[i][j] != 47,
        0 <= i < es.len(),
        slashed(es) != seq![46u8],
    ensures
        valid_path(slashed(es)) ==> vstd::utf8::valid_utf8(slashed(es)) && es[i].len() > 0 && es[i]
            != seq![46u8] && es[i] != seq![46u8, 46u8],
        vstd::utf8::valid_utf8(slashed(es)) && (forall|k: int|
            0 <= k < es.len() ==> (#[trigger] es[k]).len() > 0 && es[k] != seq![46u8] && es[k]
                != seq![46u8, 46u8]) ==> valid_path(slashed(es)),
        valid_path(seq![46u8]) == vstd::utf8::valid_utf8(seq![46u8]),
{
    law_path_is_its_elements(es);
    if valid_path(slashed(es)) {
        assert(plain_element(elements(slashed(es))[i]));
    }
}

/// A name stands below the directory, after one slash, whether or not the
/// directory's own path ends with it; `.` is the directory itself.
pub proof fn law_name_is_below(dir: Seq<u8>, name: Seq<u8>)
    requires
        dir.len() > 0,
        dir.last() != 47,
        name != seq![46u8],
    ensures
        below(dir, name) == dir + seq![47u8] + name,
        below(dir + seq![47u8], name) == dir + seq![47u8] + name,
        below(seq![47u8], name) == seq![47u8] + name,
        below(dir, seq![46u8]) == dir,
{
    assert(dir.push(47) + name =~= dir + seq![47u8] + name);
    assert((dir + seq![47u8]).last() == 47);
    assert(seq![47u8].last() == 47);
}

/// A name is refused for an empty root, and otherwise exactly if it is no
/// accepted name or holds a NUL.
pub proof fn law_refused_names(dir: Seq<u8>, op: Seq<u8>, a: Seq<u8>, b: Seq<u8>)
    ensures
        refusal(Seq::empty(), op, a) == Some(
            ErrorView::Path {
                op,
                path: a,
                err: CauseView::Message(gostr::lit("os: DirFS with empty root")),
            },
        ),
        dir.len() > 0 ==> refusal(dir, op, a + seq![0u8] + b) == Some(
            ErrorView::Path { op, path: a + seq![0u8] + b, err: CauseView::Invalid },
        ),
        dir.len() > 0 && !valid_path(a) ==> refusal(dir, op, a) == Some(
            ErrorView::Path { op, path: a, err: CauseView::Invalid },
        ),
        dir.len() > 0 && valid_path(a) && (forall|i: int| 0 <= i < a.len() ==> a[i] != 0)
            ==> refusal(dir, op, a) is None,
{
    let s = a + seq![0u8] + b;
    assert(s[a.len() as int] == 0);
    assert(has_nul(s));
}

} // verus!
