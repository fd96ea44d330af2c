use goish::flags::{dump_to_stderr, init_from_argv, init_from_envp, Flags};
use goish::gobuf::{make_context, make_context_gogo, Gobuf};
use goish::grow::{grow_and_call, grow_bytes_live, grow_calls, grow_done, grow_hits, grow_live, grow_peak_live, grow_request, maybe_grow, maybe_grow_step, ActiveStack, GrowStats};
use goish::m::{acquirem, current_m_locks, current_m_storage, first_lock_site, is_tls_ready, main_stack_bounds, pre_goish_fs_base, releasem, setup_main_g0, setup_main_tls, stack_bounds_ok, MStorage, Release, Tls, M_OFFSET};
use goish::memory::Memory;
use goish::p::{acquirep, bootstrap_ps, current_p, for_each_p, num_ps, p_at, releasep, AllPs, McacheStep, LOCAL_RUNQ_SIZE, P, P_IDLE, P_RUNNING};
use goish::rand::{cheaprand, cheaprandn, init, Rand, K1, K2};
use goish::spin::{cooperative_preempt_check, raw_lock, raw_unlock, Running, SpinLock};
use goish::stack::{bare_reserve, parse_main_stack_bounds, reserve_pool_len, round_up_to_page, set_bare_reserve, Discard, Reserved, Source, Stack, StackPool, BARE_STACK_RESERVE, GUARD_SIZE, NIL_SPAN};
use goish::steal::{gcd, RandomOrder, MAX_PS};

fn v(s: &str) -> Vec<u8> {
    s.as_bytes().to_vec()
}

fn queue(p: &P) -> Vec<usize> {
    let n = p.runqtail.wrapping_sub(p.runqhead);
    (0..n).map(|i| p.runq[p.runqhead.wrapping_add(i) as usize % LOCAL_RUNQ_SIZE]).collect()
}

// ---- run queues ----

#[test]
fn a_queue_is_first_in_first_out() {
    let mut p = P::new(0);
    assert!(p.runqempty());
    for g in 1..4 {
        assert!(p.runqput(g, false).is_none());
    }
    assert_eq!(p.runq_len(), 3);
    assert_eq!(p.runqget(), Some(1));
    assert_eq!(p.runqget(), Some(2));
    p.runqput(9, false);
    assert_eq!(p.runqget(), Some(3));
    assert_eq!(p.runqget(), Some(9));
    assert_eq!(p.runqget(), None);
}

#[test]
fn the_next_goroutine_runs_first_and_displaces() {
    let mut p = P::new(0);
    p.runqput(1, false);
    assert!(p.runqput(2, true).is_none());
    assert_eq!(p.runnext, 2);
    assert!(p.runqput(3, true).is_none());
    assert_eq!(queue(&p), vec![1, 2]);
    assert!(p.runq_has_work());
    assert_eq!(p.runq_len(), 3);
    assert_eq!(p.runqget(), Some(3));
    assert_eq!(p.runqget(), Some(1));
    assert_eq!(p.runqget(), Some(2));
    assert!(!p.runq_has_work());
}

#[test]
fn a_full_queue_spills_half() {
    let mut p = P::new(0);
    for g in 1..257 {
        assert!(p.runqput(g, false).is_none());
    }
    let batch = p.runqput(500, false).unwrap();
    let mut want: Vec<usize> = (1..129).collect();
    want.push(500);
    assert_eq!(batch, want);
    assert_eq!(queue(&p), (129..257).collect::<Vec<usize>>());
}

#[test]
fn a_queue_wraps_around() {
    let mut p = P::new(0);
    p.runqhead = u32::MAX - 1;
    p.runqtail = u32::MAX - 1;
    for g in 1..6 {
        p.runqput(g, false);
    }
    assert_eq!(p.runqtail, 3);
    assert_eq!(queue(&p), vec![1, 2, 3, 4, 5]);
    assert_eq!(p.runqget(), Some(1));
}

#[test]
fn a_thief_takes_half_and_runs_the_last() {
    let mut victim = P::new(0);
    let mut thief = P::new(1);
    for g in 1..6 {
        victim.runqput(g, false);
    }
    thief.runqput(90, false);
    assert_eq!(thief.runqsteal(&mut victim, true), Some(3));
    assert_eq!(queue(&thief), vec![90, 1, 2]);
    assert_eq!(queue(&victim), vec![4, 5]);
}

#[test]
fn a_thief_takes_the_next_goroutine_only_if_allowed() {
    let mut victim = P::new(0);
    let mut thief = P::new(1);
    victim.runqput(7, true);
    victim.status = P_RUNNING;
    assert_eq!(thief.runqsteal(&mut victim, false), None);
    assert!(victim.steal_should_yield(true));
    assert_eq!(thief.runqsteal(&mut victim, true), Some(7));
    assert_eq!(victim.runnext, 0);
    assert_eq!(thief.runqsteal(&mut victim, true), None);
}

#[test]
fn a_grab_fails_when_the_head_has_moved() {
    let mut p = P::new(0);
    for g in 1..5 {
        p.runqput(g, false);
    }
    let (h, batch) = p.runqgrab_read();
    assert_eq!(batch, vec![1, 2]);
    p.runqput(5, false);
    assert!(p.runqgrab_commit(h, 2));
    assert_eq!(queue(&p), vec![3, 4, 5]);
    assert!(!p.runqgrab_commit(h, 2));
    assert_eq!(queue(&p), vec![3, 4, 5]);
}

#[test]
fn a_span_cache_is_refilled() {
    let mut p = P::new(0);
    assert_eq!(p.mcache_alloc(None), McacheStep::Null);
    assert_eq!(p.mcache_alloc(Some(0)), McacheStep::Null);
    assert_eq!(p.mcache_alloc(Some(3)), McacheStep::Refill { full: 0, class: 3 });
    assert_eq!(p.mcache_cached(3, 8), McacheStep::AllocLast(8));
    assert_eq!(p.mcache_alloc(Some(3)), McacheStep::AllocIn(8));
    assert_eq!(p.mcache_alloced(3, 4096), McacheStep::Done(4096));
    assert_eq!(p.mcache_alloced(3, 0), McacheStep::Refill { full: 8, class: 3 });
    assert_eq!(p.mcache_cached(3, 0), McacheStep::Null);
    p.mcache_cached(5, 11);
    p.mcache_cached(2, 12);
    assert_eq!(p.mcache_flush(), vec![12, 11]);
    assert!(p.mcache_flush().is_empty());
}

#[test]
fn processors_are_made_once() {
    let mut all = AllPs::new();
    assert!(p_at(&all, 0).is_none());
    bootstrap_ps(&mut all, 3);
    assert_eq!(num_ps(&all), 3);
    bootstrap_ps(&mut all, 8);
    assert_eq!(num_ps(&all), 3);
    assert_eq!(p_at(&all, 2).unwrap().id, 2);
    assert_eq!(for_each_p(&all), vec![0, 1, 2]);
    let mut many = AllPs::new();
    bootstrap_ps(&mut many, 1000);
    assert_eq!(num_ps(&many), MAX_PS);
}

#[test]
fn a_thread_binds_and_releases_its_processor() {
    let mut all = AllPs::new();
    bootstrap_ps(&mut all, 1);
    let tls = Tls { ready: true, pre_goish_fs_base: 0 };
    let mut s = MStorage::new(5, 64);
    let mut p = all.ps.pop().unwrap();
    acquirep(&tls, &mut s, &mut p);
    assert_eq!(p.status, P_RUNNING);
    assert_eq!(p.bound_m(), Some(5));
    assert_eq!(current_p(&tls, &s), Some(0));
    p.mcache_cached(4, 9);
    all.ps.push(p);
    let (id, spans) = releasep(&tls, &mut s, &mut all);
    assert_eq!(id, Some(0));
    assert_eq!(spans, vec![9]);
    assert_eq!(all.ps[0].status, P_IDLE);
    assert!(all.ps[0].bound_m().is_none());
    assert!(current_p(&tls, &s).is_none());
}

// ---- the order of stealing ----

#[test]
fn a_round_visits_each_processor_once() {
    let mut o = RandomOrder::new();
    assert!(o.start(7).done());
    o.reset(12);
    assert_eq!(o.coprimes, vec![1, 5, 7, 11]);
    for seed in [0u32, 1, 13, 40, 77, u32::MAX] {
        let mut seen = vec![0; 12];
        let mut e = o.start(seed);
        while !e.done() {
            seen[e.position() as usize] += 1;
            e.next();
        }
        assert_eq!(seen, vec![1; 12]);
    }
    assert_eq!(gcd(12, 18), 6);
}

// ---- threads ----

#[test]
fn locks_are_counted_once_threads_have_storage() {
    let mut tls = Tls { ready: false, pre_goish_fs_base: 0 };
    let mut s = MStorage::new(0, 4096);
    acquirem(&tls, &mut s);
    assert_eq!(s.locks, 0);
    assert!(setup_main_tls(&mut tls, &mut s, 77, 0, 123));
    assert!(is_tls_ready(&tls));
    assert_eq!(pre_goish_fs_base(&tls), 77);
    assert_eq!(s.m.procid, 123);
    assert_eq!(current_m_storage(s.tls_self), s.tls_base());
    assert_eq!(s.tls_self, 4096 + M_OFFSET);
    acquirem(&tls, &mut s);
    acquirem(&tls, &mut s);
    assert_eq!(current_m_locks(&tls, &s), 2);
    let mem = Memory { base: 0, words: &[] };
    assert!(matches!(releasem(&tls, &mut s, &mem, 0), Release::Done));
    assert_eq!(current_m_locks(&tls, &s), 1);
}

#[test]
fn a_release_without_a_lock_reports_the_callers() {
    let tls = Tls { ready: true, pre_goish_fs_base: 0 };
    let mut s = MStorage::new(0, 4096);
    let mem = Memory { base: 0x1000, words: &[0x1010, 0xabc, 0, 0x1f] };
    match releasem(&tls, &mut s, &mem, 0x1000) {
        Release::Fatal { report, code } => {
            assert_eq!(code, 87);
            assert_eq!(report, v("releasem UNDERFLOW, caller PCs:\n 0x0000000000000abc\n 0x000000000000001f\n"));
        }
        _ => panic!("not fatal"),
    }
    assert_eq!(s.locks, u32::MAX);
}

#[test]
fn a_failed_thread_pointer_is_fatal() {
    let mut tls = Tls { ready: false, pre_goish_fs_base: 0 };
    let mut s = MStorage::new(0, 4096);
    assert!(!setup_main_tls(&mut tls, &mut s, 0, -1, 123));
    assert!(!is_tls_ready(&tls));
    assert_eq!(s.m.procid, 0);
}

#[test]
fn the_scheduler_stack_ends_below_the_arguments() {
    let mut s = MStorage::new(0, 4096);
    setup_main_g0(&mut s, 0x10000, 0x8000, Some(0x17fe8));
    assert_eq!(s.g0, Some((0x10000, 0x7fe0)));
    setup_main_g0(&mut s, 0x10000, 0x8000, Some(0x20));
    assert_eq!(s.g0, Some((0x10000, 0x8000)));
    setup_main_g0(&mut s, 0x10000, 0x8000, None);
    assert_eq!(s.g0, Some((0x10000, 0x8000)));
}

#[test]
fn an_unknown_main_stack_is_guessed() {
    assert_eq!(main_stack_bounds(Some((1, 2)), 0), (1, 2));
    let mib8 = 8 << 20;
    assert_eq!(main_stack_bounds(None, 5 * mib8 + 100), (5 * mib8, mib8));
    assert_eq!(main_stack_bounds(None, 5 * mib8), (4 * mib8, mib8));
    assert!(stack_bounds_ok(100, 50, 60));
    assert!(!stack_bounds_ok(100, 50, 100));
    assert!(!stack_bounds_ok(100, 0, 60));
    assert!(!stack_bounds_ok(10, 50, 5));
}

#[test]
fn a_spin_lock_counts_and_remembers_its_site() {
    let tls = Tls { ready: true, pre_goish_fs_base: 0 };
    let mut s = MStorage::new(0, 4096);
    let mut l = SpinLock::new(41, 0x900);
    let g = l.lock(&tls, &mut s, 17);
    assert!(l.locked);
    assert!(l.try_lock().is_none());
    assert_eq!(s.locks, 1);
    assert_eq!(first_lock_site(&tls, &s), Some(17));
    let mut inner = false;
    raw_lock(&mut inner, &tls, &mut s, 18);
    assert!(inner);
    assert_eq!(first_lock_site(&tls, &s), Some(17));
    let mut run = Some(Running { stack_lo: 100, stack_hi: 200, preempt: true });
    let mem = Memory { base: 0, words: &[] };
    let (done, yielding) = raw_unlock(&mut inner, &tls, &mut s, &mem, 0, &mut run, true, 150);
    assert!(matches!(done, Release::Done) && !yielding);
    assert!(!inner);
    let (done, yielding) = l.unlock(g, &tls, &mut s, &mem, 0, &mut run, true, 150);
    assert!(matches!(done, Release::Done));
    assert!(yielding);
    assert!(!run.as_ref().unwrap().preempt);
    assert!(!l.locked);
    assert_eq!(s.locks, 0);
    assert_eq!(l.lock_atom(), 0x900);
    assert_eq!(l.into_inner(), 41);
}

#[test]
fn an_unlock_without_a_lock_is_fatal_and_does_not_yield() {
    let tls = Tls { ready: true, pre_goish_fs_base: 0 };
    let mut s = MStorage::new(0, 4096);
    let mut l: SpinLock<u8> = SpinLock::default();
    assert!(!l.locked);
    assert_eq!(l.data, 0);
    let g = l.try_lock().unwrap();
    let mut run = Some(Running { stack_lo: 100, stack_hi: 200, preempt: true });
    let mem = Memory { base: 0, words: &[] };
    let (done, yielding) = l.unlock(g, &tls, &mut s, &mem, 0, &mut run, true, 150);
    assert!(matches!(done, Release::Fatal { code: 87, .. }));
    assert!(!yielding);
    s.locks = 0;
    let mut inner = true;
    let (done, yielding) = raw_unlock(&mut inner, &tls, &mut s, &mem, 0, &mut run, true, 150);
    assert!(matches!(done, Release::Fatal { code: 87, .. }) && !yielding && !inner);
    assert!(run.unwrap().preempt);
}

#[test]
fn a_goroutine_yields_on_its_own_stack_only() {
    let tls = Tls { ready: true, pre_goish_fs_base: 0 };
    let s = MStorage::new(0, 4096);
    let mut g = Some(Running { stack_lo: 100, stack_hi: 200, preempt: true });
    assert!(!cooperative_preempt_check(false, &tls, &s, &mut g, 150));
    assert!(!cooperative_preempt_check(true, &tls, &s, &mut g, 250));
    assert!(cooperative_preempt_check(true, &tls, &s, &mut g, 150));
    assert!(!cooperative_preempt_check(true, &tls, &s, &mut g, 150));
    let mut none: Option<Running> = None;
    assert!(!cooperative_preempt_check(true, &tls, &s, &mut none, 150));
}

// ---- stacks ----

#[test]
fn a_kept_stack_is_used_again() {
    let mut pool = StackPool::new(GUARD_SIZE);
    assert_eq!(bare_reserve(&pool), BARE_STACK_RESERVE);
    match Stack::new_reserved(&mut pool) {
        Reserved::Fresh(n) => assert_eq!(n, BARE_STACK_RESERVE + GUARD_SIZE),
        _ => panic!("nothing was kept"),
    }
    let s = Stack { base: 0x10000, size: BARE_STACK_RESERVE, owned: true, pool_span_idx: NIL_SPAN, guarded: true };
    assert_eq!(s.discard(&mut pool), Discard::Kept { base: 0x10000, size: BARE_STACK_RESERVE });
    assert_eq!(reserve_pool_len(&pool), 1);
    match Stack::new_reserved(&mut pool) {
        Reserved::Ready(s) => assert_eq!((s.base(), s.size(), s.top()), (0x10000, BARE_STACK_RESERVE, 0x10000 + BARE_STACK_RESERVE)),
        _ => panic!("not used again"),
    }
    assert_eq!(reserve_pool_len(&pool), 0);
}

#[test]
fn another_size_gives_up_the_kept_stacks() {
    let mut pool = StackPool::new(GUARD_SIZE);
    for i in 1..4usize {
        pool.pool.push((i * 0x100000, BARE_STACK_RESERVE));
    }
    let (prev, gone) = set_bare_reserve(&mut pool, 10000);
    assert_eq!(prev, BARE_STACK_RESERVE);
    assert_eq!(bare_reserve(&pool), 12288);
    assert!(pool.pool.is_empty());
    let n = BARE_STACK_RESERVE + 4096;
    assert_eq!(gone, vec![(0xff000, n), (0x2ff000, n), (0x1ff000, n)]);
    let (_prev, gone) = set_bare_reserve(&mut pool, 12000);
    assert!(gone.is_empty());
    set_bare_reserve(&mut pool, 1);
    assert_eq!(bare_reserve(&pool), 8192);
}

#[test]
fn kept_stacks_of_the_new_size_stay() {
    let mut pool = StackPool { guard: GUARD_SIZE, bare: 8192, pool: vec![(0x5000, 8192), (0x9000, 8192), (0xd000, 8192)] };
    match Stack::new_reserved(&mut pool) {
        Reserved::Ready(s) => assert_eq!(s.base(), 0xd000),
        _ => panic!("not found"),
    }
    assert_eq!(pool.pool, vec![(0x5000, 8192), (0x9000, 8192)]);
    let (_prev, gone) = set_bare_reserve(&mut pool, 8000);
    assert!(gone.is_empty());
    assert_eq!(pool.pool.len(), 2);
}

#[test]
fn the_largest_reservation_is_a_whole_number_of_pages() {
    let mut pool = StackPool::new(GUARD_SIZE);
    set_bare_reserve(&mut pool, usize::MAX - 4095);
    assert_eq!(bare_reserve(&pool), usize::MAX - 4095);
    assert_eq!(goish::grow::grow_request(usize::MAX - 4095), usize::MAX - 4095);
}

#[test]
fn a_guard_is_one_page_of_the_kernel() {
    let mut pool = StackPool::new(goish::sys::PHYS_PAGE_SIZE);
    match Stack::new_reserved(&mut pool) {
        Reserved::Fresh(n) => assert_eq!(n, BARE_STACK_RESERVE + 16384),
        _ => panic!("nothing was kept"),
    }
    let s = Stack::new_sized(5000, Source::Mapped { map_base: 0x10000, guard: 16384 });
    assert_eq!((s.base(), s.size()), (0x14000, 8192));
    assert_eq!(s.discard(&mut pool), Discard::Unmap { advise: false, base: 0x10000, size: 8192 + 16384 });
}

#[test]
fn a_dropped_stack_goes_where_it_came_from() {
    let mut pool = StackPool::new(GUARD_SIZE);
    assert_eq!(Stack::adopted(1, 2).discard(&mut pool), Discard::Nothing);
    let s = Stack::new(Source::Pool { base: 0x4000, span_idx: 3, size: 2048 });
    assert_eq!(s.size(), 2048);
    assert_eq!(s.discard(&mut pool), Discard::PoolFree { span: 3, base: 0x4000 });
    let s = Stack::new_sized(5000, Source::Mapped { map_base: 0x10000, guard: GUARD_SIZE });
    assert_eq!((s.base(), s.size()), (0x11000, 8192));
    assert_eq!(s.discard(&mut pool), Discard::Unmap { advise: false, base: 0x10000, size: 12288 });
    let plain = Stack { base: 0x8000, size: 4096, owned: true, pool_span_idx: NIL_SPAN, guarded: false };
    assert_eq!(plain.discard(&mut pool), Discard::Unmap { advise: false, base: 0x8000, size: 4096 });
    for _ in 0..256 {
        pool.pool.push((0x100000, BARE_STACK_RESERVE));
    }
    let s = Stack { base: 0x10000, size: BARE_STACK_RESERVE, owned: true, pool_span_idx: NIL_SPAN, guarded: true };
    assert_eq!(s.discard(&mut pool), Discard::Unmap { advise: true, base: 0xf000, size: BARE_STACK_RESERVE + 4096 });
    assert_eq!(round_up_to_page(4097), 8192);
    assert_eq!(Stack::request(0), 1);
}

#[test]
fn the_main_stack_is_found_in_the_mappings() {
    let maps = b"00400000-00401000 r-xp 00000000 00:00 0 /bin/x\n7ffc0000-7FFd0000 rw-p 00000000 00:00 0   [stack]\nffff-fffff x\n";
    assert_eq!(parse_main_stack_bounds(maps), Some((0x7ffc0000, 0x10000)));
    assert_eq!(parse_main_stack_bounds(b"nothing here\n"), None);
    assert_eq!(parse_main_stack_bounds(b"10-8 [stack]\n"), None);
    assert_eq!(parse_main_stack_bounds(b"0-8 [stack]\n"), None);
    assert_eq!(parse_main_stack_bounds(b"10 [stack]\n"), None);
}

#[test]
fn stacks_grow_by_tiers() {
    let mut s = GrowStats { calls: 0, hits: 0, live: 0, peak_live: 0, bytes_live: 0 };
    assert!(!maybe_grow(&mut s, 100, 500, 0));
    assert!(!maybe_grow(&mut s, 100, 500, 400));
    assert!(maybe_grow(&mut s, 101, 500, 400));
    assert!(maybe_grow(&mut s, 1, 300, 400));
    assert_eq!(grow_calls(&s), 4);
    assert_eq!(maybe_grow_step(&mut s, None, 0), None);
    assert_eq!(maybe_grow_step(&mut s, Some((4096, 4096 + 2048)), 4096 + 1023), Some(65536));
    assert_eq!(maybe_grow_step(&mut s, Some((4096, 4096 + 2048)), 4096 + 1024), None);
    assert_eq!(maybe_grow_step(&mut s, Some((4096, 4096 + 65536)), 4096 + 8191), Some(1048576));
    assert_eq!(maybe_grow_step(&mut s, Some((4096, 4096 + 1048576)), 4096), None);
    assert_eq!(grow_calls(&s), 7);
}

#[test]
fn a_grown_stack_is_left_again() {
    let mut s = GrowStats { calls: 0, hits: 0, live: 0, peak_live: 0, bytes_live: 0 };
    let mut g = ActiveStack { lo: 10, hi: 20 };
    let size = grow_request(70000);
    assert_eq!(size, 73728);
    assert_eq!(grow_request(1), 8192);
    let a = grow_and_call(&mut s, &mut g, 0x100000, size);
    assert_eq!((g.lo, g.hi), (0x100000, 0x100000 + size));
    let b = grow_and_call(&mut s, &mut g, 0x200000, 8192);
    assert_eq!((grow_live(&s), grow_peak_live(&s), grow_bytes_live(&s)), (2, 2, size + 8192));
    assert_eq!(grow_done(&mut s, &mut g, b), (0x200000, 8192));
    assert_eq!((g.lo, g.hi), (0x100000, 0x100000 + size));
    assert_eq!(grow_done(&mut s, &mut g, a), (0x100000, size));
    assert_eq!((g.lo, g.hi), (10, 20));
    assert_eq!((grow_live(&s), grow_peak_live(&s), grow_bytes_live(&s), grow_hits(&s)), (0, 2, 0, 2));
}

#[test]
fn new_contexts_return_to_the_exit() {
    let mut b = Gobuf::new();
    b.rbx = 9;
    let (exit, entry) = make_context(&mut b, 0x2000, 0xaaa, 0xeee);
    assert_eq!((exit.addr, exit.value), (0x1ff8, 0xeee));
    assert_eq!((entry.addr, entry.value), (0x1ff0, 0xaaa));
    assert_eq!((b.rsp, b.rbx, b.pc), (0x1ff0, 0, 0));
    let exit = make_context_gogo(&mut b, 0x2000, 0xaaa, 0xeee);
    assert_eq!((exit.addr, exit.value), (0x1ff8, 0xeee));
    assert_eq!((b.rsp, b.pc), (0x1ff8, 0xaaa));
    let mut c = goish::gobuf_arm64::Gobuf::new();
    goish::gobuf_arm64::make_context(&mut c, 0x2000, 0xaaa, 0xeee);
    assert_eq!((c.rsp, c.pc, c.lr, c.fp), (0x2000, 0xaaa, 0xeee, 0));
}

// ---- switches and random numbers ----

#[test]
fn switches_are_read_from_the_environment() {
    let mut f = Flags::new();
    init_from_envp(&mut f, &vec![v("PATH=/bin"), v("GOISH_RUNNEXT=0"), v("GOISH_COOP_PREEMPT=off"), v("GOISH_ASYNC_PREEMPT=false"), v("GOISH_WORK_STEALING=no"), v("GOISH_OTHER=0"), v("GOISH_STEAL_RUNNEXT")]);
    assert_eq!(f, Flags { runnext_fastpath: false, steal_runnext: true, work_stealing: true, coop_preempt: false, async_preempt: false });
    init_from_envp(&mut f, &vec![v("GOISH_RUNNEXT=0"), v("GOISH_RUNNEXT=1")]);
    assert!(f.runnext_fastpath);
    assert_eq!(dump_to_stderr(&f), v("goish flags: RUNNEXT=1 STEAL_RUNNEXT=1 WORK_STEALING=1 COOP_PREEMPT=0 ASYNC_PREEMPT=0\n"));
}

#[test]
fn only_lower_case_values_switch_off() {
    let mut f = Flags::new();
    init_from_envp(&mut f, &vec![v("GOISH_RUNNEXT=OFF"), v("GOISH_COOP_PREEMPT=FALSE"), v("GOISH_WORK_STEALING=Off"), v("GOISH_ASYNC_PREEMPT=")]);
    assert_eq!(f, Flags::new());
}

#[test]
fn only_the_first_entries_are_read() {
    let mut env = vec![v("A=1"); 4095];
    env.push(v("GOISH_RUNNEXT=0"));
    env.push(v("GOISH_COOP_PREEMPT=0"));
    let mut f = Flags::new();
    init_from_envp(&mut f, &env);
    assert_eq!(f, Flags { runnext_fastpath: false, ..Flags::new() });
}

#[test]
fn a_function_is_called_once_and_its_result_handed_on() {
    let mut calls = 0;
    let r = goish::grow::run_on(None, || { calls += 1; 7 }, |_f, _base, _size| 0);
    assert_eq!((r, calls), (7, 1));
    let mut calls = 0;
    let r = goish::grow::run_on(Some((64, 8)), || { calls += 1; 7 }, |f: _, base, size| {
        assert_eq!((base, size), (64, 8));
        call_it(f)
    });
    assert_eq!((r, calls), (7, 1));
}

fn call_it<R>(f: impl FnOnce() -> R) -> R {
    f()
}

#[test]
fn the_environment_follows_the_arguments() {
    let mut f = Flags::new();
    init_from_argv(&mut f, 1, &vec![Some(v("GOISH_RUNNEXT=0")), None, Some(v("GOISH_STEAL_RUNNEXT=false")), None, Some(v("GOISH_COOP_PREEMPT=0"))]);
    assert_eq!(f, Flags { steal_runnext: false, ..Flags::new() });
}

#[test]
fn random_numbers_follow_the_recurrence() {
    let mut r = Rand { state: 0 };
    init(&mut r, 5);
    let seed = 5u64.wrapping_mul(K1) ^ K2;
    assert_eq!(r.state, seed);
    init(&mut r, 6);
    assert_eq!(r.state, seed);
    let next = seed.wrapping_add(K1);
    let prod = (next as u128) * ((next ^ K2) as u128);
    assert_eq!(cheaprand(&mut r), (((prod >> 64) as u64) ^ (prod as u64)) as u32);
    assert_eq!(r.state, next);
    for n in [1u32, 2, 3, 10, 1000] {
        for _ in 0..50 {
            assert!(cheaprandn(&mut r, n) < n);
        }
    }
    assert_eq!(cheaprandn(&mut r, 0), 0);
}
