//! Switches of the runtime, set from the environment.

use vstd::prelude::*;

use crate::dwarf_util::copy_range;
use crate::gostr::{append, same_bytes, text};
use crate::gostr;

verus! {

#[derive(Clone, Copy, Debug, PartialEq, Eq, Structural)]
pub struct Flags {
    pub runnext_fastpath: bool,
    pub steal_runnext: bool,
    pub work_stealing: bool,
    pub coop_preempt: bool,
    pub async_preempt: bool,
}

impl Flags {
    /// Everything is on.
    pub fn new() -> (r: Self)
        ensures
            r == (Flags {
                runnext_fastpath: true,
                steal_runnext: true,
                work_stealing: true,
                coop_preempt: true,
                async_preempt: true,
            }),
    {
        Flags {
            runnext_fastpath: true,
            steal_runnext: true,
            work_stealing: true,
            coop_preempt: true,
            async_preempt: true,
        }
    }
}

/// How long a switch's name may be.
pub const NAME_MAX: usize = 64;

/// How many entries of the environment are read.
pub const ENTRIES_MAX: usize = 4096;

/// Position of the first `=` from `i` on, or the length.
pub open spec fn first_equals(s: Seq<u8>, i: int) -> int
    decreases s.len() - i,
{
    if i < 0 || i >= s.len() {
        s.len() as int
    } else if s[i] == 61 {
        i
    } else {
        first_equals(s, i + 1)
    }
}

/// The values that switch off.
pub open spec fn is_off(value: Seq<u8>) -> bool {
    ||| value == gostr::lit("0")
    ||| value == gostr::lit("false")
    ||| value == gostr::lit("off")
}

/// The switches with one of them set; an unknown name changes nothing.
pub open spec fn with_flag(f: Flags, name: Seq<u8>, on: bool) -> Flags {
    if name == gostr::lit("RUNNEXT") {
        Flags { runnext_fastpath: on, ..f }
    } else if name == gostr::lit("STEAL_RUNNEXT") {
        Flags { steal_runnext: on, ..f }
    } else if name == gostr::lit("WORK_STEALING") {
        Flags { work_stealing: on, ..f }
    } else if name == gostr::lit("COOP_PREEMPT") {
        Flags { coop_preempt: on, ..f }
    } else if name == gostr::lit("ASYNC_PREEMPT") {
        Flags { async_preempt: on, ..f }
    } else {
        f
    }
}

/// The switches after an entry of the environment: `GOISH_NAME=value`.
pub open spec fn after_entry(f: Flags, entry: Seq<u8>) -> Flags {
    let prefix = gostr::lit("GOISH_");
    if entry.len() < prefix.len() || entry.subrange(0, prefix.len() as int) != prefix {
        f
    } else {
        let rest = entry.subrange(prefix.len() as int, entry.len() as int);
        let eq = first_equals(rest, 0);
        if eq > NAME_MAX || eq >= rest.len() {
            f
        } else {
            with_flag(
                f,
                rest.subrange(0, eq),
                !is_off(rest.subrange(eq + 1, rest.len() as int)),
            )
        }
    }
}

/// The switches after the first `n` entries.
pub open spec fn after_entries(f: Flags, env: Seq<Vec<u8>>, n: nat) -> Flags
    decreases n,
{
    if n == 0 {
        f
    } else {
        after_entry(after_entries(f, env, (n - 1) as nat), env[n - 1]@)
    }
}

fn set_flag(f: &mut Flags, name: &[u8], on: bool)
    ensures
        *final(f) == with_flag(*old(f), name@, on),
{
    if same_bytes(name, text("RUNNEXT").as_slice()) {
        f.runnext_fastpath = on;
    } else if same_bytes(name, text("STEAL_RUNNEXT").as_slice()) {
        f.steal_runnext = on;
    } else if same_bytes(name, text("WORK_STEALING").as_slice()) {
        f.work_stealing = on;
    } else if same_bytes(name, text("COOP_PREEMPT").as_slice()) {
        f.coop_preempt = on;
    } else if same_bytes(name, text("ASYNC_PREEMPT").as_slice()) {
        f.async_preempt = on;
    }
}

fn match_entry(f: &mut Flags, entry: &[u8])
    ensures
        *final(f) == after_entry(*old(f), entry@),
{
    let prefix = text("GOISH_");
    let n: usize = prefix.len();
    if entry.len() < n {
        return;
    }
    let head = copy_range(entry, 0, n);
    if !same_bytes(head.as_slice(), prefix.as_slice()) {
        return;
    }
    let rest = copy_range(entry, n, entry.len());
    let mut j: usize = 0;
    while j < rest.len() && rest[j] != 61
        invariant
            j <= rest@.len(),
            first_equals(rest@, 0) == first_equals(rest@, j as int),
        decreases rest@.len() - j,
    {
        j = j + 1;
    }
    if j > NAME_MAX || j >= rest.len() {
        return;
    }
    let name = copy_range(rest.as_slice(), 0, j);
    let value = copy_range(rest.as_slice(), j + 1, rest.len());
    let v = value.as_slice();
    let off = same_bytes(v, text("0").as_slice()) || same_bytes(v, text("false").as_slice())
        || same_bytes(v, text("off").as_slice());
    set_flag(f, name.as_slice(), !off);
}

/// How many of `n` entries are read.
pub open spec fn entries_read(n: nat) -> nat {
    if n < ENTRIES_MAX {
        n
    } else {
        ENTRIES_MAX as nat
    }
}

/// Sets the switches from the environment; of many entries only the first are
/// read. A later entry for a switch wins.
pub fn init_from_envp(f: &mut Flags, env: &Vec<Vec<u8>>)
    ensures
        *final(f) == after_entries(
            *old(f),
            env@,
            entries_read(env@.len()),
        ),
{
    let mut i: usize = 0;
    while i < env.len() && i < ENTRIES_MAX
        invariant
            i <= env@.len(),
            i <= ENTRIES_MAX,
            *f == after_entries(*old(f), env@, i as nat),
        decreases env@.len() - i,
    {
        match_entry(f, env[i].as_slice());
        i = i + 1;
    }
}

/// The environment behind an argument vector: what follows the end of the
/// arguments, up to the next end.
pub open spec fn env_from(argv: Seq<Option<Vec<u8>>>, i: int) -> Seq<Seq<u8>>
    decreases argv.len() - i,
{
    if i < 0 || i >= argv.len() || argv[i] is None {
        Seq::empty()
    } else {
        seq![argv[i]->0@] + env_from(argv, i + 1)
    }
}

/// The entries as plain byte strings.
pub open spec fn texts(env: Seq<Vec<u8>>) -> Seq<Seq<u8>> {
    Seq::new(env.len(), |i: int| env[i]@)
}

/// Finds the environment: behind the arguments of a new process and the mark
/// of their end. An absent entry marks an end.
pub fn env_of(argv: &Vec<Option<Vec<u8>>>, argc: usize) -> (env: Vec<Vec<u8>>)
    requires
        argc < argv@.len(),
    ensures
        texts(env@) == env_from(argv@, argc + 1),
{
    let mut env: Vec<Vec<u8>> = Vec::new();
    let n: usize = argv.len();
    let mut i: usize = argc + 1;
    let ghost all = env_from(argv@, argc + 1);
    assert(texts(env@) + all =~= all);
    loop
        invariant_except_break
            argc + 1 <= i <= n == argv@.len(),
            all == texts(env@) + env_from(argv@, i as int),
        ensures
            texts(env@) == all,
        decreases argv@.len() - i,
    {
        if i >= n {
            assert(texts(env@) + Seq::<Seq<u8>>::empty() =~= texts(env@));
            break;
        }
        match &argv[i] {
            None => {
                assert(texts(env@) + Seq::<Seq<u8>>::empty() =~= texts(env@));
                break;
            },
            Some(e) => {
                let ghost before = env@;
                env.push(gostr::copy_bytes(e.as_slice()));
                assert(texts(env@) =~= texts(before).push(e@));
                assert(texts(before) + (seq![e@] + env_from(argv@, i + 1)) =~= texts(env@)
                    + env_from(argv@, i + 1));
            },
        }
        i = i + 1;
    }
    env
}

/// The switches after some entries, given as plain byte strings.
pub open spec fn after_texts(f: Flags, env: Seq<Seq<u8>>, n: nat) -> Flags
    decreases n,
{
    if n == 0 {
        f
    } else {
        after_entry(after_texts(f, env, (n - 1) as nat), env[n - 1])
    }
}

proof fn lemma_after_texts(f: Flags, env: Seq<Vec<u8>>, n: nat)
    requires
        n <= env.len(),
    ensures
        after_texts(f, texts(env), n) == after_entries(f, env, n),
    decreases n,
{
    if n > 0 {
        lemma_after_texts(f, env, (n - 1) as nat);
    }
}

/// Sets the switches from the environment behind an argument vector.
pub fn init_from_argv(f: &mut Flags, argc: usize, argv: &Vec<Option<Vec<u8>>>)
    requires
        argc < argv@.len(),
    ensures
        ({
            let env = env_from(argv@, argc + 1);
            *final(f) == after_texts(
                *old(f),
                env,
                entries_read(env.len()),
            )
        }),
{
    let env = env_of(argv, argc);
    proof {
        lemma_after_texts(*f, env@, entries_read(env@.len()));
    }
    init_from_envp(f, &env);
}

/// An entry changes at most the one switch that it names.
pub proof fn law_entry_sets_one_switch(f: Flags, entry: Seq<u8>)
    ensures
        ({
            let g = after_entry(f, entry);
            ||| g == f
            ||| g == (Flags { runnext_fastpath: g.runnext_fastpath, ..f })
            ||| g == (Flags { steal_runnext: g.steal_runnext, ..f })
            ||| g == (Flags { work_stealing: g.work_stealing, ..f })
            ||| g == (Flags { coop_preempt: g.coop_preempt, ..f })
            ||| g == (Flags { async_preempt: g.async_preempt, ..f })
        }),
{
}

/// Reading an entry twice is reading it once.
pub proof fn law_entry_is_idempotent(f: Flags, entry: Seq<u8>)
    ensures
        after_entry(after_entry(f, entry), entry) == after_entry(f, entry),
{
}

pub open spec fn switch_text(label: Seq<u8>, on: bool) -> Seq<u8> {
    label + (if on {
        gostr::lit("1")
    } else {
        gostr::lit("0")
    })
}

fn write_one(out: &mut Vec<u8>, label: &str, on: bool)
    ensures
        final(out)@ == old(out)@ + switch_text(gostr::lit(label), on),
{
    append(out, text(label).as_slice());
    if on {
        append(out, text("1").as_slice());
    } else {
        append(out, text("0").as_slice());
    }
    assert(out@ =~= old(out)@ + switch_text(gostr::lit(label), on));
}

/// All switches, as one line.
pub open spec fn flags_text(f: Flags) -> Seq<u8> {
    gostr::lit("goish flags: ") + switch_text(
        gostr::lit("RUNNEXT="),
        f.runnext_fastpath,
    ) + switch_text(gostr::lit(" STEAL_RUNNEXT="), f.steal_runnext) + switch_text(
        gostr::lit(" WORK_STEALING="),
        f.work_stealing,
    ) + switch_text(gostr::lit(" COOP_PREEMPT="), f.coop_preempt) + switch_text(
        gostr::lit(" ASYNC_PREEMPT="),
        f.async_preempt,
    ) + gostr::lit("\n")
}

/// The line that shows all switches, for standard error.
pub fn dump_to_stderr(f: &Flags) -> (out: Vec<u8>)
    ensures
        out@ == flags_text(*f),
{
    let mut out = text("goish flags: ");
    write_one(&mut out, "RUNNEXT=", f.runnext_fastpath);
    write_one(&mut out, " STEAL_RUNNEXT=", f.steal_runnext);
    write_one(&mut out, " WORK_STEALING=", f.work_stealing);
    write_one(&mut out, " COOP_PREEMPT=", f.coop_preempt);
    write_one(&mut out, " ASYNC_PREEMPT=", f.async_preempt);
    append(&mut out, text("\n").as_slice());
    out
}

proof fn lemma_first_equals(s: Seq<u8>, i: int, n: int)
    requires
        0 <= i <= n < s.len(),
        s[n] == 61,
        forall|k: int| i <= k < n ==> #[trigger] s[k] != 61,
    ensures
        first_equals(s, i) == n,
    decreases n - i,
{
    if i < n {
        lemma_first_equals(s, i + 1, n);
    }
}

proof fn lemma_entry(f: Flags, name: Seq<u8>, value: Seq<u8>)
    requires
        name.len() <= 64,
        forall|k: int| 0 <= k < name.len() ==> #[trigger] name[k] != 61,
    ensures
        after_entry(f, gostr::lit("GOISH_") + name + seq![61u8] + value) == with_flag(
            f,
            name,
            !is_off(value),
        ),
{
    let prefix = gostr::lit("GOISH_");
    let entry = prefix + name + seq![61u8] + value;
    let rest = name + seq![61u8] + value;
    assert(entry.subrange(0, prefix.len() as int) =~= prefix);
    assert(entry.subrange(prefix.len() as int, entry.len() as int) =~= rest);
    assert forall|k: int| 0 <= k < name.len() implies #[trigger] rest[k] != 61 by {
        assert(rest[k] == name[k]);
    }
    lemma_first_equals(rest, 0, name.len() as int);
    assert(rest.subrange(0, name.len() as int) =~= name);
    assert(rest.subrange(name.len() as int + 1, rest.len() as int) =~= value);
}

proof fn lemma_switch_names()
    ensures
        gostr::lit("RUNNEXT") == seq![82u8, 85, 78, 78, 69, 88, 84],
        gostr::lit("STEAL_RUNNEXT") == seq![83u8, 84, 69, 65, 76, 95, 82, 85, 78, 78, 69, 88, 84],
        gostr::lit("WORK_STEALING") == seq![87u8, 79, 82, 75, 95, 83, 84, 69, 65, 76, 73, 78, 71],
        gostr::lit("COOP_PREEMPT") == seq![67u8, 79, 79, 80, 95, 80, 82, 69, 69, 77, 80, 84],
        gostr::lit("ASYNC_PREEMPT") == seq![65u8, 83, 89, 78, 67, 95, 80, 82, 69, 69, 77, 80, 84],
        gostr::lit("0") == seq![48u8],
        gostr::lit("false") == seq![102u8, 97, 108, 115, 101],
        gostr::lit("off") == seq![111u8, 102, 102],
{
    reveal_strlit("RUNNEXT");
    reveal_strlit("STEAL_RUNNEXT");
    reveal_strlit("WORK_STEALING");
    reveal_strlit("COOP_PREEMPT");
    reveal_strlit("ASYNC_PREEMPT");
    reveal_strlit("0");
    reveal_strlit("false");
    reveal_strlit("off");
    gostr::lemma_plain_text("RUNNEXT");
    gostr::lemma_plain_text("STEAL_RUNNEXT");
    gostr::lemma_plain_text("WORK_STEALING");
    gostr::lemma_plain_text("COOP_PREEMPT");
    gostr::lemma_plain_text("ASYNC_PREEMPT");
    gostr::lemma_plain_text("0");
    gostr::lemma_plain_text("false");
    gostr::lemma_plain_text("off");
    assert(gostr::lit("RUNNEXT") =~= seq![82u8, 85, 78, 78, 69, 88, 84]);
    assert(gostr::lit("STEAL_RUNNEXT") =~= seq![
        83u8, 84, 69, 65, 76, 95, 82, 85, 78, 78, 69, 88, 84,
    ]);
    assert(gostr::lit("WORK_STEALING") =~= seq![
        87u8, 79, 82, 75, 95, 83, 84, 69, 65, 76, 73, 78, 71,
    ]);
    assert(gostr::lit("COOP_PREEMPT") =~= seq![
        67u8, 79, 79, 80, 95, 80, 82, 69, 69, 77, 80, 84,
    ]);
    assert(gostr::lit("ASYNC_PREEMPT") =~= seq![
        65u8, 83, 89, 78, 67, 95, 80, 82, 69, 69, 77, 80, 84,
    ]);
    assert(gostr::lit("0") =~= seq![48u8]);
    assert(gostr::lit("false") =~= seq![102u8, 97, 108, 115, 101]);
    assert(gostr::lit("off") =~= seq![111u8, 102, 102]);
}

/// An entry `GOISH_NAME=value` sets the switch of that name and no other: off
/// for the values `0`, `false` and `off`, on for every other value.
pub proof fn law_entry_sets_its_switch(f: Flags, value: Seq<u8>)
    ensures
        ({
            let on = value != seq![48u8] && value != seq![102u8, 97, 108, 115, 101] && value != seq![
                111u8, 102, 102,
            ];
            let g = gostr::lit("GOISH_");
            &&& after_entry(f, g + gostr::lit("RUNNEXT") + seq![61u8] + value) == Flags {
                runnext_fastpath: on,
                ..f
            }
            &&& after_entry(f, g + gostr::lit("STEAL_RUNNEXT") + seq![61u8] + value) == Flags {
                steal_runnext: on,
                ..f
            }
            &&& after_entry(f, g + gostr::lit("WORK_STEALING") + seq![61u8] + value) == Flags {
                work_stealing: on,
                ..f
            }
            &&& after_entry(f, g + gostr::lit("COOP_PREEMPT") + seq![61u8] + value) == Flags {
                coop_preempt: on,
                ..f
            }
            &&& after_entry(f, g + gostr::lit("ASYNC_PREEMPT") + seq![61u8] + value) == Flags {
                async_preempt: on,
                ..f
            }
        }),
{
    lemma_switch_names();
    lemma_entry(f, gostr::lit("RUNNEXT"), value);
    lemma_entry(f, gostr::lit("STEAL_RUNNEXT"), value);
    lemma_entry(f, gostr::lit("WORK_STEALING"), value);
    lemma_entry(f, gostr::lit("COOP_PREEMPT"), value);
    lemma_entry(f, gostr::lit("ASYNC_PREEMPT"), value);
    let a = gostr::lit("STEAL_RUNNEXT");
    let b = gostr::lit("WORK_STEALING");
    let c = gostr::lit("ASYNC_PREEMPT");
    assert(a[0] == 83 && b[0] == 87 && c[0] == 65);
}

/// An entry that does not begin with `GOISH_`, or holds no `=`, changes
/// nothing.
pub proof fn law_other_entries_change_nothing(f: Flags, entry: Seq<u8>)
    requires
        !(exists|rest: Seq<u8>| entry == #[trigger] (gostr::lit("GOISH_") + rest)) || forall|k: int|
            0 <= k < entry.len() ==> #[trigger] entry[k] != 61,
    ensures
        after_entry(f, entry) == f,
{
    let prefix = gostr::lit("GOISH_");
    let n = prefix.len() as int;
    if entry.len() >= n && entry.subrange(0, n) == prefix {
        let rest = entry.subrange(n, entry.len() as int);
        assert(entry =~= prefix + rest);
        assert forall|k: int| 0 <= k < rest.len() implies #[trigger] rest[k] != 61 by {
            assert(rest[k] == entry[n + k]);
        }
        lemma_no_equals(rest, 0);
    }
}

proof fn lemma_no_equals(s: Seq<u8>, i: int)
    requires
        0 <= i <= s.len(),
        forall|k: int| 0 <= k < s.len() ==> #[trigger] s[k] != 61,
    ensures
        first_equals(s, i) == s.len(),
    decreases s.len() - i,
{
    if i < s.len() {
        lemma_no_equals(s, i + 1);
    }
}

/// Entries are read one after the other, so a later one wins.
pub proof fn law_entries_are_read_in_order(f: Flags, a: Seq<Seq<u8>>, b: Seq<Seq<u8>>)
    ensures
        after_texts(f, a, 0) == f,
        after_texts(f, a + b, a.len() + b.len()) == after_texts(
            after_texts(f, a, a.len()),
            b,
            b.len(),
        ),
        b.len() == 1 ==> after_texts(f, b, 1) == after_entry(f, b[0]),
{
    lemma_first_entries(f, a, b, a.len());
    lemma_later_entries(f, a, b, b.len());
    if b.len() == 1 {
        assert(after_texts(f, b, 0) == f);
    }
}

proof fn lemma_first_entries(f: Flags, a: Seq<Seq<u8>>, b: Seq<Seq<u8>>, n: nat)
    requires
        n <= a.len(),
    ensures
        after_texts(f, a + b, n) == after_texts(f, a, n),
    decreases n,
{
    if n > 0 {
        lemma_first_entries(f, a, b, (n - 1) as nat);
    }
}

proof fn lemma_later_entries(f: Flags, a: Seq<Seq<u8>>, b: Seq<Seq<u8>>, n: nat)
    requires
        n <= b.len(),
    ensures
        after_texts(f, a + b, a.len() + n) == after_texts(after_texts(f, a, a.len()), b, n),
    decreases n,
{
    if n == 0 {
        lemma_first_entries(f, a, b, a.len());
    } else {
        lemma_later_entries(f, a, b, (n - 1) as nat);
        assert((a + b)[a.len() + n - 1] == b[n - 1]);
    }
}

/// All entries are read, up to 4096 of them.
pub proof fn law_entries_are_read(n: nat)
    ensures
        n <= 4096 ==> entries_read(n) == n,
        n > 4096 ==> entries_read(n) == 4096,
{
}

/// The environment is what stands between the end of the arguments and the
/// next end, whole and in order.
pub proof fn law_environment_is_behind_the_arguments(
    argv: Seq<Option<Vec<u8>>>,
    start: int,
    env: Seq<Vec<u8>>,
)
    requires
        0 <= start,
        start + env.len() <= argv.len(),
        start + env.len() < argv.len() ==> argv[start + env.len()] is None,
        forall|i: int| 0 <= i < env.len() ==> argv[start + i] == Some(#[trigger] env[i]),
    ensures
        env_from(argv, start) == texts(env),
    decreases env.len(),
{
    if env.len() == 0 {
        assert(texts(env) =~= Seq::empty());
    } else {
        assert(argv[start + 0] == Some(env[0]));
        let rest = env.subrange(1, env.len() as int);
        assert forall|i: int| 0 <= i < rest.len() implies argv[start + 1 + i] == Some(
            #[trigger] rest[i],
        ) by {
            assert(rest[i] == env[i + 1]);
        }
        law_environment_is_behind_the_arguments(argv, start + 1, rest);
        assert(texts(env) =~= seq![env[0]@] + texts(rest));
    }
}

/// The line shows every switch under its name, as `1` or `0`.
pub proof fn law_line_shows_every_switch(f: Flags)
    ensures
        flags_text(f) == gostr::lit("goish flags: ") + (gostr::lit("RUNNEXT=") + seq![if f.runnext_fastpath {
            49u8
        } else {
            48u8
        }]) + (gostr::lit(" STEAL_RUNNEXT=") + seq![if f.steal_runnext {
            49u8
        } else {
            48u8
        }]) + (gostr::lit(" WORK_STEALING=") + seq![if f.work_stealing {
            49u8
        } else {
            48u8
        }]) + (gostr::lit(" COOP_PREEMPT=") + seq![if f.coop_preempt {
            49u8
        } else {
            48u8
        }]) + (gostr::lit(" ASYNC_PREEMPT=") + seq![if f.async_preempt {
            49u8
        } else {
            48u8
        }]) + seq![10u8],
{
    reveal_strlit("0");
    reveal_strlit("1");
    reveal_strlit("\n");
    gostr::lemma_plain_text("0");
    gostr::lemma_plain_text("1");
    gostr::lemma_plain_text("\n");
    assert(gostr::lit("0") =~= seq![48u8]);
    assert(gostr::lit("1") =~= seq![49u8]);
    assert(gostr::lit("\n") =~= seq![10u8]);
}

} // verus!
