//! User and group records.

use vstd::prelude::*;

use crate::errors::ENOENT;
use crate::gostr::{atoi, copy_bytes, itoa, same_bytes, text, NumError};
use crate::{dwarf_util, gostr, line};

verus! {

#[derive(Debug)]
pub struct User {
    pub Uid: Vec<u8>,
    pub Gid: Vec<u8>,
    pub Username: Vec<u8>,
    pub Name: Vec<u8>,
    pub HomeDir: Vec<u8>,
}

#[derive(Debug)]
pub struct Group {
    pub Gid: Vec<u8>,
    pub Name: Vec<u8>,
}

#[verifier::ext_equal]
pub struct UserView {
    pub uid: Seq<u8>,
    pub gid: Seq<u8>,
    pub username: Seq<u8>,
    pub name: Seq<u8>,
    pub home: Seq<u8>,
}

impl View for User {
    type V = UserView;

    open spec fn view(&self) -> UserView {
        UserView {
            uid: self.Uid@,
            gid: self.Gid@,
            username: self.Username@,
            name: self.Name@,
            home: self.HomeDir@,
        }
    }
}

pub open spec fn no_user() -> UserView {
    UserView {
        uid: Seq::empty(),
        gid: Seq::empty(),
        username: Seq::empty(),
        name: Seq::empty(),
        home: Seq::empty(),
    }
}

impl Default for User {
    fn default() -> (r: Self)
        ensures
            r@ == no_user(),
    {
        let r = User {
            Uid: Vec::new(),
            Gid: Vec::new(),
            Username: Vec::new(),
            Name: Vec::new(),
            HomeDir: Vec::new(),
        };
        assert(r@ =~= no_user());
        r
    }
}

/// Why a lookup found nothing.
#[derive(Debug)]
pub enum UserError {
    UnknownUser(Vec<u8>),
    UnknownUserId(i64),
    UnknownGroup(Vec<u8>),
    UnknownGroupId(Vec<u8>),
    /// The text is no number.
    Number(NumError, Vec<u8>),
    /// The system failed: what was looked up, under which key, and its error
    /// number.
    System(Vec<u8>, Vec<u8>, i32),
}

pub enum UserErrorView {
    UnknownUser(Seq<u8>),
    UnknownUserId(i64),
    UnknownGroup(Seq<u8>),
    UnknownGroupId(Seq<u8>),
    Number(NumError, Seq<u8>),
    System(Seq<u8>, Seq<u8>, i32),
}

impl View for UserError {
    type V = UserErrorView;

    open spec fn view(&self) -> UserErrorView {
        match self {
            UserError::UnknownUser(n) => UserErrorView::UnknownUser(n@),
            UserError::UnknownUserId(i) => UserErrorView::UnknownUserId(*i),
            UserError::UnknownGroup(n) => UserErrorView::UnknownGroup(n@),
            UserError::UnknownGroupId(n) => UserErrorView::UnknownGroupId(n@),
            UserError::Number(e, n) => UserErrorView::Number(*e, n@),
            UserError::System(w, k, e) => UserErrorView::System(w@, k@, *e),
        }
    }
}

/// A record of the user database.
pub struct Passwd {
    pub pw_name: Vec<u8>,
    pub pw_uid: u32,
    pub pw_gid: u32,
    /// The full name, up to the first comma.
    pub pw_gecos: Vec<u8>,
    pub pw_dir: Vec<u8>,
}

/// A record of the group database.
pub struct CGroup {
    pub gr_name: Vec<u8>,
    pub gr_gid: u32,
}

pub open spec fn before_comma(s: Seq<u8>) -> Seq<u8>
    decreases s.len(),
{
    if s.len() == 0 || s[0] == 44 {
        Seq::empty()
    } else {
        seq![s[0]] + before_comma(s.subrange(1, s.len() as int))
    }
}

proof fn lemma_before_comma(s: Seq<u8>, n: int)
    requires
        0 <= n <= s.len(),
        forall|i: int| 0 <= i < n ==> #[trigger] s[i] != 44,
        n < s.len() ==> s[n] == 44,
    ensures
        before_comma(s) == s.subrange(0, n),
    decreases s.len(),
{
    if n > 0 {
        let t = s.subrange(1, s.len() as int);
        assert forall|i: int| 0 <= i < n - 1 implies #[trigger] t[i] != 44 by {
            assert(t[i] == s[i + 1]);
        }
        lemma_before_comma(t, n - 1);
        assert(seq![s[0]] + t.subrange(0, n - 1) =~= s.subrange(0, n));
    } else {
        assert(s.subrange(0, 0) =~= Seq::empty());
    }
}

pub open spec fn user_of(pw: Passwd) -> UserView {
    UserView {
        uid: gostr::dec(pw.pw_uid as int),
        gid: gostr::dec(pw.pw_gid as int),
        username: pw.pw_name@,
        name: before_comma(pw.pw_gecos@),
        home: pw.pw_dir@,
    }
}

/// The user of a database record.
pub fn build_user(pwd: &Passwd) -> (r: User)
    ensures
        r@ == user_of(*pwd),
{
    let g = &pwd.pw_gecos;
    let mut n: usize = 0;
    while n < g.len() && g[n] != 44
        invariant
            n <= g.len(),
            forall|i: int| 0 <= i < n ==> #[trigger] g@[i] != 44,
        decreases g.len() - n,
    {
        n = n + 1;
    }
    proof {
        lemma_before_comma(g@, n as int);
    }
    User {
        Uid: itoa(pwd.pw_uid as i64),
        Gid: itoa(pwd.pw_gid as i64),
        Username: copy_bytes(pwd.pw_name.as_slice()),
        Name: dwarf_util::copy_range(g.as_slice(), 0, n),
        HomeDir: copy_bytes(pwd.pw_dir.as_slice()),
    }
}

/// The group of a database record.
pub fn build_group(grp: &CGroup) -> (r: Group)
    ensures
        r.Gid@ == gostr::dec(grp.gr_gid as int),
        r.Name@ == grp.gr_name@,
{
    Group { Gid: itoa(grp.gr_gid as i64), Name: copy_bytes(grp.gr_name.as_slice()) }
}

/// The database answered that there is no such record.
pub open spec fn not_found<T>(e: i32, found: Option<T>) -> bool {
    e == ENOENT || (e == 0 && found is None)
}

/// `r` is what the database's answer says of the user of a name.
pub open spec fn name_answer(username: Seq<u8>, e: i32, found: Option<Passwd>, r: Result<User, UserError>) -> bool {
    if not_found(e, found) {
        r matches Err(x) && x@ == UserErrorView::UnknownUser(username)
    } else if e != 0 {
        r matches Err(x) && x@ == UserErrorView::System(
            gostr::lit("user: lookup username "),
            username,
            e,
        )
    } else {
        r matches Ok(u) && u@ == user_of(found->0)
    }
}

/// The user of that name, from the database's answer.
pub fn lookup_user(username: &Vec<u8>, e: i32, found: Option<Passwd>) -> (r: Result<
    User,
    UserError,
>)
    ensures
        name_answer(username@, e, found, r),
{
    if e != 0 && e != ENOENT {
        return Err(
            UserError::System(
                text("user: lookup username "),
                copy_bytes(username.as_slice()),
                e,
            ),
        );
    }
    match found {
        Some(p) => if e == 0 {
            Ok(build_user(&p))
        } else {
            Err(UserError::UnknownUser(copy_bytes(username.as_slice())))
        },
        None => Err(UserError::UnknownUser(copy_bytes(username.as_slice()))),
    }
}

pub open spec fn number_failure(s: Seq<u8>) -> Option<NumError> {
    match gostr::int_value(s) {
        None => Some(NumError::Syntax),
        Some(v) => if i64::MIN <= v <= i64::MAX {
            None
        } else {
            Some(NumError::Range)
        },
    }
}

/// The number to ask the database for: the text cut to 32 bits.
pub fn id_number(id: &Vec<u8>) -> (r: Result<u32, UserError>)
    ensures
        match number_failure(id@) {
            Some(n) => r matches Err(x) && x@ == UserErrorView::Number(n, id@),
            None => r == Ok::<u32, UserError>((gostr::int_value(id@)->0 as i64) as u32),
        },
{
    match atoi(id.as_slice()) {
        Err(n) => Err(UserError::Number(n, copy_bytes(id.as_slice()))),
        Ok(i) => Ok(i as u32),
    }
}

/// `r` is what the database's answer says of the user of a number.
pub open spec fn id_answer(uid: Seq<u8>, e: i32, found: Option<Passwd>, r: Result<User, UserError>) -> bool {
    match number_failure(uid) {
        Some(n) => r matches Err(x) && x@ == UserErrorView::Number(n, uid),
        None => if not_found(e, found) {
            r matches Err(x) && x@ == UserErrorView::UnknownUserId(gostr::int_value(uid)->0 as i64)
        } else if e != 0 {
            r matches Err(x) && x@ == UserErrorView::System(
                gostr::lit("user: lookup userid "),
                uid,
                e,
            )
        } else {
            r matches Ok(u) && u@ == user_of(found->0)
        },
    }
}

/// The user of that number, from the database's answer.
pub fn lookup_user_id(uid: &Vec<u8>, e: i32, found: Option<Passwd>) -> (r: Result<User, UserError>)
    ensures
        id_answer(uid@, e, found, r),
{
    let i: i64 = match atoi(uid.as_slice()) {
        Err(n) => {
            return Err(UserError::Number(n, copy_bytes(uid.as_slice())));
        },
        Ok(i) => i,
    };
    if e != 0 && e != ENOENT {
        return Err(
            UserError::System(text("user: lookup userid "), copy_bytes(uid.as_slice()), e),
        );
    }
    match found {
        Some(p) => if e == 0 {
            Ok(build_user(&p))
        } else {
            Err(UserError::UnknownUserId(i))
        },
        None => Err(UserError::UnknownUserId(i)),
    }
}

/// `r` is what the database's answer says of the group of a name.
pub open spec fn group_answer(name: Seq<u8>, e: i32, found: Option<CGroup>, r: Result<Group, UserError>) -> bool {
    if not_found(e, found) {
        r matches Err(x) && x@ == UserErrorView::UnknownGroup(name)
    } else if e != 0 {
        r matches Err(x) && x@ == UserErrorView::System(
            gostr::lit("user: lookup groupname "),
            name,
            e,
        )
    } else {
        r matches Ok(g) && g.Gid@ == gostr::dec(found->0.gr_gid as int) && g.Name@
            == found->0.gr_name@
    }
}

/// The group of that name, from the database's answer.
pub fn LookupGroup(name: &Vec<u8>, e: i32, found: Option<CGroup>) -> (r: Result<Group, UserError>)
    ensures
        group_answer(name@, e, found, r),
{
    if e != 0 && e != ENOENT {
        return Err(
            UserError::System(text("user: lookup groupname "), copy_bytes(name.as_slice()), e),
        );
    }
    match found {
        Some(p) => if e == 0 {
            Ok(build_group(&p))
        } else {
            Err(UserError::UnknownGroup(copy_bytes(name.as_slice())))
        },
        None => Err(UserError::UnknownGroup(copy_bytes(name.as_slice()))),
    }
}

/// `r` is what the database's answer says of the group of a number.
pub open spec fn group_id_answer(gid: Seq<u8>, e: i32, found: Option<CGroup>, r: Result<Group, UserError>) -> bool {
    match number_failure(gid) {
        Some(n) => r matches Err(x) && x@ == UserErrorView::Number(n, gid),
        None => if not_found(e, found) {
            r matches Err(x) && x@ == UserErrorView::UnknownGroupId(gid)
        } else if e != 0 {
            r matches Err(x) && x@ == UserErrorView::System(
                gostr::lit("user: lookup groupid "),
                gid,
                e,
            )
        } else {
            r matches Ok(g) && g.Gid@ == gostr::dec(found->0.gr_gid as int) && g.Name@
                == found->0.gr_name@
        },
    }
}

/// The group of that number, from the database's answer.
pub fn LookupGroupId(gid: &Vec<u8>, e: i32, found: Option<CGroup>) -> (r: Result<Group, UserError>)
    ensures
        group_id_answer(gid@, e, found, r),
{
    match atoi(gid.as_slice()) {
        Err(n) => {
            return Err(UserError::Number(n, copy_bytes(gid.as_slice())));
        },
        Ok(_i) => {},
    }
    if e != 0 && e != ENOENT {
        return Err(
            UserError::System(text("user: lookup groupid "), copy_bytes(gid.as_slice()), e),
        );
    }
    match found {
        Some(p) => if e == 0 {
            Ok(build_group(&p))
        } else {
            Err(UserError::UnknownGroupId(copy_bytes(gid.as_slice())))
        },
        None => Err(UserError::UnknownGroupId(copy_bytes(gid.as_slice()))),
    }
}

// ---- the current user, and lookups that know it ----

/// A lookup either has its answer or asks the database.
pub enum LookupStep {
    Found(User),
    AskName(Vec<u8>),
    AskId(Vec<u8>),
}

pub open spec fn asks_for_name(
    username: Seq<u8>,
    current: Result<User, UserError>,
    r: LookupStep,
) -> bool {
    match current {
        Ok(u) if u.Username@ == username => r == LookupStep::Found(u),
        _ => r matches LookupStep::AskName(n) && n@ == username,
    }
}

pub open spec fn asks_for_id(uid: Seq<u8>, current: Result<User, UserError>, r: LookupStep) -> bool {
    match current {
        Ok(u) if u.Uid@ == uid => r == LookupStep::Found(u),
        _ => r matches LookupStep::AskId(n) && n@ == uid,
    }
}

/// The current user, from the two lookups.
pub open spec fn current_of(
    by_id: Result<User, UserError>,
    by_name: Option<Result<User, UserError>>,
) -> Result<User, UserError> {
    match by_id {
        Ok(u) => by_id,
        Err(e) => match by_name {
            Some(Ok(u)) => Ok(u),
            _ => by_id,
        },
    }
}

/// Looks a user up by name: the current user without asking.
pub fn Lookup(username: &Vec<u8>, current: Result<User, UserError>) -> (r: LookupStep)
    ensures
        asks_for_name(username@, current, r),
{
    match current {
        Ok(u) => if same_bytes(u.Username.as_slice(), username.as_slice()) {
            LookupStep::Found(u)
        } else {
            LookupStep::AskName(copy_bytes(username.as_slice()))
        },
        Err(_) => LookupStep::AskName(copy_bytes(username.as_slice())),
    }
}

/// Looks a user up by number: the current user without asking.
pub fn LookupId(uid: &Vec<u8>, current: Result<User, UserError>) -> (r: LookupStep)
    ensures
        asks_for_id(uid@, current, r),
{
    match current {
        Ok(u) => if same_bytes(u.Uid.as_slice(), uid.as_slice()) {
            LookupStep::Found(u)
        } else {
            LookupStep::AskId(copy_bytes(uid.as_slice()))
        },
        Err(_) => LookupStep::AskId(copy_bytes(uid.as_slice())),
    }
}

/// The key under which the current user is looked up first.
pub fn current_uid(uid: i64) -> (r: Vec<u8>)
    ensures
        r@ == gostr::dec(uid as int),
{
    itoa(uid)
}

/// The current user: the record of the process's number, else that of the name
/// in the environment (`by_name` is its lookup, if the name is not empty).
/// When both fail, the first failure is reported.
pub fn Current(by_id: Result<User, UserError>, by_name: Option<Result<User, UserError>>) -> (r:
    Result<User, UserError>)
    ensures
        r == current_of(by_id, by_name),
{
    match by_id {
        Ok(u) => Ok(u),
        Err(e) => match by_name {
            Some(Ok(u)) => Ok(u),
            _ => Err(e),
        },
    }
}

impl User {
    /// The user's groups: the primary one, if it is known.
    pub fn GroupIds(&self) -> (r: Vec<Vec<u8>>)
        ensures
            line::byte_views(r@) == (if self.Gid@.len() > 0 {
                seq![self.Gid@]
            } else {
                Seq::empty()
            }),
    {
        let mut out: Vec<Vec<u8>> = Vec::new();
        if self.Gid.len() > 0 {
            out.push(copy_bytes(self.Gid.as_slice()));
            assert(line::byte_views(out@) =~= seq![self.Gid@]);
        } else {
            assert(line::byte_views(out@) =~= Seq::empty());
        }
        out
    }
}

/// A user is that of its record: the numbers read back from their texts, the
/// names and the directory are the record's, and the full name is what stands
/// before the first comma.
pub proof fn law_user_is_that_of_the_record(pw: Passwd, full: Seq<u8>, rest: Seq<u8>)
    requires
        forall|i: int| 0 <= i < full.len() ==> #[trigger] full[i] != 44,
        pw.pw_gecos@ == full || pw.pw_gecos@ == full + seq![44u8] + rest,
    ensures
        gostr::int_value(user_of(pw).uid) == Some(pw.pw_uid as int),
        gostr::int_value(user_of(pw).gid) == Some(pw.pw_gid as int),
        user_of(pw).username == pw.pw_name@,
        user_of(pw).home == pw.pw_dir@,
        user_of(pw).name == full,
{
    gostr::law_decimal_round_trip(pw.pw_uid as int);
    gostr::law_decimal_round_trip(pw.pw_gid as int);
    let g = pw.pw_gecos@;
    let n = full.len() as int;
    assert forall|i: int| 0 <= i < n implies #[trigger] g[i] != 44 by {
        assert(g[i] == full[i]);
    }
    lemma_before_comma(g, n);
    assert(g.subrange(0, n) =~= full);
}

/// A record that is found is returned. No record, or error 2, is an unknown
/// user; any other error is reported with what was looked up.
pub proof fn law_user_lookup(
    key: Seq<u8>,
    e: i32,
    found: Option<Passwd>,
    by_name: Result<User, UserError>,
    by_id: Result<User, UserError>,
    n: i64,
)
    requires
        name_answer(key, e, found, by_name),
        id_answer(key, e, found, by_id),
        gostr::int_value(key) == Some(n as int),
    ensures
        e == 0 && found is Some ==> by_name is Ok && by_id is Ok && by_name->Ok_0@ == user_of(found->0)
            && by_id->Ok_0@ == user_of(found->0),
        e == 2 || (e == 0 && found is None) ==> (by_name matches Err(x) && x@
            == UserErrorView::UnknownUser(key)) && (by_id matches Err(x) && x@
            == UserErrorView::UnknownUserId(n)),
        e != 0 && e != 2 ==> (by_name matches Err(x) && x@ == UserErrorView::System(
            gostr::lit("user: lookup username "),
            key,
            e,
        )) && (by_id matches Err(x) && x@ == UserErrorView::System(
            gostr::lit("user: lookup userid "),
            key,
            e,
        )),
{
}

/// The same of groups: the number of a group that is found reads back from its
/// text.
pub proof fn law_group_lookup(
    key: Seq<u8>,
    e: i32,
    found: Option<CGroup>,
    by_name: Result<Group, UserError>,
    by_id: Result<Group, UserError>,
    n: i64,
)
    requires
        group_answer(key, e, found, by_name),
        group_id_answer(key, e, found, by_id),
        gostr::int_value(key) == Some(n as int),
    ensures
        e == 0 && found is Some ==> by_name is Ok && by_id is Ok && gostr::int_value(
            by_name->Ok_0.Gid@,
        ) == Some(found->0.gr_gid as int) && gostr::int_value(by_id->Ok_0.Gid@) == Some(
            found->0.gr_gid as int,
        ) && by_name->Ok_0.Name@ == found->0.gr_name@ && by_id->Ok_0.Name@ == found->0.gr_name@,
        e == 2 || (e == 0 && found is None) ==> (by_name matches Err(x) && x@
            == UserErrorView::UnknownGroup(key)) && (by_id matches Err(x) && x@
            == UserErrorView::UnknownGroupId(key)),
        e != 0 && e != 2 ==> (by_name matches Err(x) && x@ == UserErrorView::System(
            gostr::lit("user: lookup groupname "),
            key,
            e,
        )) && (by_id matches Err(x) && x@ == UserErrorView::System(
            gostr::lit("user: lookup groupid "),
            key,
            e,
        )),
{
    if e == 0 && found is Some {
        gostr::law_decimal_round_trip(found->0.gr_gid as int);
    }
}

/// A number that is no number, or too large, is refused before the database's
/// answer counts; every number in range is accepted.
pub proof fn law_numbers_are_checked_first(
    key: Seq<u8>,
    x: int,
    e: i32,
    found: Option<Passwd>,
    r: Result<User, UserError>,
    group: Option<CGroup>,
    g: Result<Group, UserError>,
)
    requires
        id_answer(key, e, found, r),
        group_id_answer(key, e, group, g),
    ensures
        gostr::int_value(key) is None ==> (r matches Err(y) && y@ == UserErrorView::Number(
            NumError::Syntax,
            key,
        )) && (g matches Err(y) && y@ == UserErrorView::Number(NumError::Syntax, key)),
        key == gostr::dec(x) && !(-0x8000_0000_0000_0000 <= x <= 0x7fff_ffff_ffff_ffff) ==> (
        r matches Err(y) && y@ == UserErrorView::Number(NumError::Range, key)) && (g matches Err(y)
            && y@ == UserErrorView::Number(NumError::Range, key)),
        key == gostr::dec(x) && -0x8000_0000_0000_0000 <= x <= 0x7fff_ffff_ffff_ffff
            ==> number_failure(key) is None,
{
    gostr::law_decimal_round_trip(x);
}

/// The current user is found under its own name and number without asking the
/// database; any other is asked for, and so is everybody while the current user
/// is not known.
pub proof fn law_current_user_is_known(
    u: User,
    key: Seq<u8>,
    e: UserError,
    r1: LookupStep,
    r2: LookupStep,
    r3: LookupStep,
    r4: LookupStep,
)
    requires
        asks_for_name(key, Ok(u), r1),
        asks_for_id(key, Ok(u), r2),
        asks_for_name(key, Err(e), r3),
        asks_for_id(key, Err(e), r4),
    ensures
        u.Username@ == key ==> r1 == LookupStep::Found(u),
        u.Username@ != key ==> (r1 matches LookupStep::AskName(n) && n@ == key),
        u.Uid@ == key ==> r2 == LookupStep::Found(u),
        u.Uid@ != key ==> (r2 matches LookupStep::AskId(n) && n@ == key),
        r3 matches LookupStep::AskName(n) && n@ == key,
        r4 matches LookupStep::AskId(n) && n@ == key,
{
}

/// The user of the process's number is the current one, else the one of the name
/// in the environment; when neither is known, the first failure is reported.
pub proof fn law_current_user_by_number_first(
    u: User,
    v: User,
    e: UserError,
    f: UserError,
    any: Option<Result<User, UserError>>,
)
    ensures
        current_of(Ok(u), any) == Ok::<User, UserError>(u),
        current_of(Err(e), Some(Ok(v))) == Ok::<User, UserError>(v),
        current_of(Err(e), Some(Err(f))) == Err::<User, UserError>(e),
        current_of(Err(e), None) == Err::<User, UserError>(e),
{
}

} // verus!
