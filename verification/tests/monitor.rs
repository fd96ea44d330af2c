use goish::cputicks::{clock_ticks, cputicks};
use goish::m::MStorage;
use goish::memory::Memory;
use goish::netpoll::{arm_watch, block, block_resume, break_ok, break_one_claimed, break_shard, close, fire_expired_deadlines, init, init_done, live_count, netpoll_block_commit, open, open_done, pack_event_data, poll_all, poll_shard, recycled_count, release_shard, set_deadline, total_opens_count, try_claim_shard, unblock, unpack_slot, unpack_tag, watch_probe_disconnected, Batch, BlockResult, BlockStep, BreakAction, EpollEvent, Netpoll, PollDesc, Probe, EPOLLIN, EPOLLOUT, PD_READY, PD_WAIT};
use goish::preempt::{async_preempt_stack, fp_state_layout, goish_preempt_restore, goish_preempt_sigtramp, initialize_fp_state, injections, invocations, push_call, restore_preempt_frame, skip_breakdown, snapshot_injection_pcs, CpuInfo, GState, Injection, Interrupted, McontextT, Preempt, SavedArea, StackT, SwitchRanges, ThreadState, TrapAction, UcontextT, ASYNC_PREEMPT_STACK};
use goish::rt_section::{is_in_runtime, section_bounds, Section};
use goish::sample::{for_each, goish_prof_sigtramp, handler_installed, period_ns, stack_bounds, start, stop, taken, timer_armed, Profile, StartStep, RING};
use goish::segv::{classify, goish_segv_sigtramp, lookup, overflow, register, report, unregister, walk_frames, write_frame, write_hex, write_hex_compact, Frame, GStacks, Overflow, Region, SegvAction, SpawnTable};
use goish::signal::{dispatch_pending, drain_count, goish_sigtramp, ignore_signal, ignored_answer, install_handler, is_ignored, unregister_sigs, Delivery, Handler, Registration, Signals};
use goish::symbolize::SymInfo;
use goish::sys::{direct_ret, errno_ret, kevent_timeout, ptr_ret, sys_executable_path, sys_getcwd, sys_pthread_spawn, sys_ulock_wait, sys_ulock_wake, ulock_wake_op, SpawnAnswers};
use goish::syscall::Target;
use goish::sysmon::{check_force_preempt, fire_timers, force_preempt_scan_ticks, force_preempt_signals_sent, monotonic_ns, nap_ns, start_sysmon, sysmon_tick, timer_cancel, timer_park, timer_park_cancellable, timer_resumed, timer_slept, wake, CancellableSleep, PreemptRequest, Sleep, TimerToken, Timers, TIMER_ARMED, TIMER_CANCELLED, TIMER_FIRED};
use goish::tls::{find_slot, slot_agrees, MAGIC};

const R: u8 = 114;
const W: u8 = 119;

fn v(s: &str) -> Vec<u8> {
    s.as_bytes().to_vec()
}

fn poller(shards: usize) -> Netpoll {
    let mut np = Netpoll::new();
    assert_eq!(init(&np, shards), Some(shards));
    init_done(&mut np, &(0..shards).map(|i| (100 + i as i32, 200 + i as i32)).collect());
    np
}

// ---- the network poller ----

#[test]
fn a_notification_before_the_wait_is_not_lost() {
    let mut pd = PollDesc::new(5);
    assert_eq!(unblock(&mut pd, R, true), None);
    assert_eq!(pd.rg, PD_READY);
    assert!(matches!(block(&mut pd, R), BlockStep::Return(BlockResult::Ready)));
    assert!(matches!(block(&mut pd, R), BlockStep::Park));
    assert_eq!(pd.rg, PD_WAIT);
}

#[test]
fn a_parked_goroutine_is_woken() {
    let mut pd = PollDesc::new(5);
    assert!(matches!(block(&mut pd, W), BlockStep::Park));
    assert!(netpoll_block_commit(&mut pd, W, 77));
    assert_eq!(unblock(&mut pd, R, true), None);
    assert_eq!(unblock(&mut pd, W, true), Some(77));
    assert!(matches!(block_resume(&mut pd, W), BlockResult::Ready));
}

#[test]
fn a_notification_between_the_wait_and_the_park_keeps_it_running() {
    let mut pd = PollDesc::new(5);
    assert!(matches!(block(&mut pd, R), BlockStep::Park));
    assert_eq!(unblock(&mut pd, R, true), None);
    assert!(!netpoll_block_commit(&mut pd, R, 77));
    assert!(matches!(block_resume(&mut pd, R), BlockResult::Ready));
}

#[test]
fn an_expired_deadline_times_out() {
    let mut pd = PollDesc::new(5);
    assert!(matches!(block(&mut pd, R), BlockStep::Park));
    netpoll_block_commit(&mut pd, R, 9);
    assert_eq!(set_deadline(&mut pd, -1, R), Some(9));
    assert!(matches!(block_resume(&mut pd, R), BlockResult::Timedout));
    assert!(matches!(block(&mut pd, R), BlockStep::Return(BlockResult::Timedout)));
}

#[test]
fn event_data_names_a_slot_and_a_use() {
    let d = pack_event_data(0x1234_5678, 0x1_0042);
    assert_eq!(unpack_slot(d), 0x1234_5678);
    assert_eq!(unpack_tag(d), 0x42);
}

#[test]
fn descriptors_are_opened_polled_and_closed() {
    let mut np = poller(2);
    assert_eq!(init(&np, 4), None);
    let r = open(&mut np, 5);
    assert_eq!(r.fd, 5);
    assert_eq!(r.epfd, 100);
    let slot = open_done(&mut np, r.slot, 0).unwrap();
    assert_eq!(live_count(&np), 1);
    assert_eq!(total_opens_count(&np), 1);
    let mut pd = np.registry_get(slot).unwrap();
    block(&mut pd, R);
    netpoll_block_commit(&mut pd, R, 33);
    np.slots[slot as usize] = Some(pd);
    let out = poll_shard(&mut np, 0, 0, &vec![EpollEvent { events: EPOLLIN, data: r.event.data }], &vec![false]);
    assert_eq!(out.ready, vec![33]);
    let closed = close(&mut np, slot);
    assert_eq!(closed.epfd, 100);
    assert_eq!(live_count(&np), 0);
    let out = poll_shard(&mut np, 0, 0, &vec![EpollEvent { events: EPOLLIN | EPOLLOUT, data: r.event.data }], &vec![false]);
    assert!(out.ready.is_empty());
    let again = open(&mut np, 6);
    assert_eq!(again.slot, slot);
    assert_eq!(again.epfd, 101);
    assert!(recycled_count(&np) >= 1);
}

#[test]
fn a_refused_open_leaves_nothing() {
    let mut np = poller(1);
    let r = open(&mut np, 5);
    assert!(open_done(&mut np, r.slot, -17).is_none());
    assert!(np.registry_get(r.slot).is_none());
    assert_eq!(live_count(&np), 0);
}

#[test]
fn every_shard_is_polled_in_turn() {
    let mut np = poller(2);
    let mut data = Vec::new();
    for (i, g) in [(0usize, 11usize), (1, 12)] {
        let r = open(&mut np, 5 + i as i32);
        open_done(&mut np, r.slot, 0);
        let mut pd = np.registry_get(r.slot).unwrap();
        block(&mut pd, W);
        netpoll_block_commit(&mut pd, W, g);
        np.slots[r.slot as usize] = Some(pd);
        data.push(r.event.data);
    }
    let batches = vec![
        Batch { events: vec![EpollEvent { events: EPOLLOUT, data: data[0] }], gone: vec![false] },
        Batch { events: vec![EpollEvent { events: EPOLLOUT, data: data[1] }], gone: vec![false] },
    ];
    let out = poll_all(&mut np, &batches);
    assert_eq!(out.ready, vec![11, 12]);
}

#[test]
fn shards_are_claimed_by_one() {
    let mut np = poller(2);
    assert_eq!(try_claim_shard(&mut np, 1), Some(1));
    assert_eq!(try_claim_shard(&mut np, 1), Some(0));
    assert_eq!(try_claim_shard(&mut np, 1), None);
    release_shard(&mut np, 0);
    assert_eq!(try_claim_shard(&mut np, 1), Some(0));
    assert!(matches!(break_one_claimed(&mut np), BreakAction::Write(_)));
}

#[test]
fn a_poll_is_broken_once() {
    let mut np = poller(1);
    assert!(matches!(break_shard(&mut np, 0), BreakAction::Write(200)));
    assert!(matches!(break_shard(&mut np, 0), BreakAction::Nothing));
    assert!(matches!(break_shard(&mut np, 7), BreakAction::Nothing));
}

#[test]
fn deadlines_fire_once() {
    let mut np = poller(1);
    let r = open(&mut np, 5);
    open_done(&mut np, r.slot, 0);
    let mut pd = np.registry_get(r.slot).unwrap();
    set_deadline(&mut pd, 50, R);
    block(&mut pd, R);
    netpoll_block_commit(&mut pd, R, 21);
    np.slots[r.slot as usize] = Some(pd);
    assert!(fire_expired_deadlines(&mut np, 49).is_empty());
    assert_eq!(fire_expired_deadlines(&mut np, 50), vec![21]);
    assert!(fire_expired_deadlines(&mut np, 51).is_empty());
}

#[test]
fn a_watched_descriptor_is_probed() {
    assert!(matches!(watch_probe_disconnected(Target::LinuxAmd64, 0), Probe::Disconnected));
    assert!(matches!(watch_probe_disconnected(Target::LinuxAmd64, 3), Probe::Connected));
    assert!(matches!(watch_probe_disconnected(Target::LinuxAmd64, -11), Probe::Connected));
    assert!(matches!(watch_probe_disconnected(Target::LinuxAmd64, -4), Probe::Again));
    assert!(matches!(watch_probe_disconnected(Target::LinuxAmd64, -104), Probe::Disconnected));
    assert!(matches!(watch_probe_disconnected(Target::DarwinArm64, -35), Probe::Connected));
    assert!(matches!(watch_probe_disconnected(Target::DarwinArm64, -11), Probe::Disconnected));
    assert!(break_ok(Target::DarwinArm64, -35) && !break_ok(Target::LinuxAmd64, -35));
    assert!(break_ok(Target::LinuxAmd64, -11) && break_ok(Target::LinuxAmd64, 8));
    let mut pd = PollDesc::new(4);
    arm_watch(&mut pd, 8);
    assert!(pd.watch_on);
    assert_eq!(pd.watch_hook, Some(8));
}

// ---- timers ----

#[test]
fn sleepers_wake_in_order_of_their_deadlines() {
    let mut t = Timers::new();
    assert_eq!(timer_park(&mut t, 0, 100, Some(1)), Sleep::Return);
    assert_eq!(timer_park(&mut t, 5, 100, None), Sleep::Return);
    assert_eq!(timer_park(&mut t, 30, 100, Some(1)), Sleep::Park { wake: true });
    assert_eq!(timer_park(&mut t, 50, 100, Some(2)), Sleep::Park { wake: false });
    assert_eq!(timer_park(&mut t, 10, 100, Some(3)), Sleep::Park { wake: true });
    assert_eq!(timer_park(&mut t, 30, 100, Some(4)), Sleep::Park { wake: false });
    assert_eq!(t.park, 2);
    assert!(fire_timers(&mut t, 109).is_empty());
    assert_eq!(fire_timers(&mut t, 130), vec![3, 1, 4]);
    assert_eq!(fire_timers(&mut t, 1000), vec![2]);
    assert!(t.heap.is_empty());
}

#[test]
fn a_cancelled_sleep_wakes_once() {
    let mut t = Timers::new();
    let tok = t.new_token();
    assert_eq!(timer_park_cancellable(&mut t, 10, 0, Some(5), tok), CancellableSleep::Park { wake: true });
    assert_eq!(timer_cancel(&mut t, tok), (true, Some(5)));
    assert_eq!(t.tokens[tok].state, TIMER_CANCELLED);
    assert!(!timer_resumed(&t, tok));
    assert_eq!(timer_cancel(&mut t, tok), (false, None));
    assert!(fire_timers(&mut t, 100).is_empty());
}

#[test]
fn a_fired_sleep_cannot_be_cancelled() {
    let mut t = Timers::new();
    let tok = t.new_token();
    timer_park_cancellable(&mut t, 10, 0, Some(5), tok);
    assert_eq!(fire_timers(&mut t, 10), vec![5]);
    assert_eq!(t.tokens[tok].state, TIMER_FIRED);
    assert!(timer_resumed(&t, tok));
    assert_eq!(timer_cancel(&mut t, tok), (false, None));
}

#[test]
fn a_cancel_before_the_sleep_prevents_it() {
    let mut t = Timers::new();
    let tok = t.new_token();
    assert_eq!(timer_cancel(&mut t, tok), (true, None));
    assert_eq!(timer_park_cancellable(&mut t, 10, 0, Some(5), tok), CancellableSleep::Done(false));
    assert!(t.heap.is_empty());
    t.tokens[tok].rearm();
    assert_eq!(t.tokens[tok], TimerToken::new());
    assert_eq!(t.tokens[tok].state, TIMER_ARMED);
    assert_eq!(timer_park_cancellable(&mut t, 0, 0, Some(5), tok), CancellableSleep::Done(true));
    assert_eq!(timer_park_cancellable(&mut t, 0, 0, None, tok), CancellableSleep::Done(false));
    let other = t.new_token();
    assert_eq!(timer_park_cancellable(&mut t, 2_000_000_003, 0, None, other), CancellableSleep::Block { sec: 2, nsec: 3 });
    assert!(timer_slept(&mut t, other));
    assert!(!timer_slept(&mut t, other));
}

#[test]
fn naps_are_bounded() {
    assert_eq!(nap_ns(None, 0), 10_000_000);
    assert_eq!(nap_ns(Some(5_000), 0), 5_000);
    assert_eq!(nap_ns(Some(5), 0), 1_000);
    assert_eq!(nap_ns(Some(60_000_000_000), 0), 10_000_000);
    assert_eq!(nap_ns(Some(i64::MAX), i64::MIN), 10_000_000);
    assert_eq!(monotonic_ns(2, 7), 2_000_000_007);
    assert_eq!(clock_ticks(2, 7), 2_000_000_007);
    assert_eq!(cputicks(5, 2), (2 << 32) + 5);
}

#[test]
fn long_running_goroutines_are_preempted() {
    let mut t = Timers::new();
    let mut idle = MStorage::new(0, 64);
    idle.start_running_ns = 0;
    let mut short = MStorage::new(1, 64);
    short.start_running_ns = 95_000_000;
    short.m.curg = Some(1);
    let mut long = MStorage::new(2, 64);
    long.start_running_ns = 90_000_000;
    long.m.curg = Some(2);
    long.m.procid = 44;
    let mut unknown = MStorage::new(3, 64);
    unknown.start_running_ns = 1;
    unknown.m.curg = Some(3);
    let mut bare = MStorage::new(4, 64);
    bare.start_running_ns = 1;
    let ms = vec![idle, short, long, unknown, bare];
    let reqs = check_force_preempt(&mut t, true, 100_000_000, &ms);
    assert_eq!(reqs, vec![PreemptRequest { g: 2, tid: Some(44) }, PreemptRequest { g: 3, tid: None }]);
    assert_eq!(force_preempt_scan_ticks(&t), 1);
    assert_eq!(force_preempt_signals_sent(&t), 1);
    assert!(check_force_preempt(&mut t, false, 100_000_000, &ms).is_empty());
    assert_eq!(force_preempt_scan_ticks(&t), 1);
}

#[test]
fn a_turn_of_the_monitor_does_everything() {
    let mut t = Timers::new();
    let mut sigs = Signals::new();
    let mut np = poller(1);
    timer_park(&mut t, 10, 0, Some(6));
    timer_park(&mut t, 5_000, 0, Some(7));
    goish::signal::register(&mut sigs, 3, &vec![2]);
    assert!(goish_sigtramp(&mut sigs, 2));
    let park = t.park;
    let tick = sysmon_tick(&mut t, &mut sigs, &mut np, true, 100, &vec![], &vec![Batch { events: vec![], gone: vec![] }]);
    assert_eq!(tick.sample, park);
    assert_eq!(tick.deliveries, vec![Delivery { target: 3, sig: 2 }]);
    assert_eq!(tick.slept, vec![6]);
    assert_eq!(tick.nap, 4_900);
    wake(&mut t);
    assert_eq!(t.park, park.wrapping_add(1));
    let s = start_sysmon(4096);
    assert_eq!(s.m.id, u32::MAX);
}

// ---- signals ----

#[test]
fn signals_are_counted_and_drained() {
    let mut s = Signals::new();
    assert!(goish_sigtramp(&mut s, 15));
    assert!(goish_sigtramp(&mut s, 15));
    assert!(!goish_sigtramp(&mut s, 64));
    assert!(!goish_sigtramp(&mut s, -1));
    assert_eq!(drain_count(&mut s, 15), 2);
    assert_eq!(drain_count(&mut s, 15), 0);
    assert_eq!(drain_count(&mut s, 99), 0);
}

#[test]
fn an_empty_request_is_for_all_signals_that_can_be_caught() {
    let mut s = Signals::new();
    let install = goish::signal::register(&mut s, 1, &vec![]);
    assert_eq!(install.len(), 61);
    assert!(!install.contains(&9) && !install.contains(&19) && !install.contains(&0));
    assert_eq!(s.registry[0].sigs, !0u64 & !1 & !(1 << 9) & !(1 << 19));
}

#[test]
fn registering_adds_to_what_a_channel_wants() {
    let mut s = Signals::new();
    assert_eq!(goish::signal::register(&mut s, 1, &vec![2, 70, -1, 15]), vec![2, 15]);
    goish::signal::register(&mut s, 2, &vec![15]);
    goish::signal::register(&mut s, 1, &vec![2, 1]);
    assert_eq!(s.registry, vec![Registration { target: 1, sigs: 0x8006 }, Registration { target: 2, sigs: 0x8000 }]);
    unregister_sigs(&mut s, &vec![15]);
    assert_eq!(s.registry, vec![Registration { target: 1, sigs: 6 }]);
    goish::signal::unregister(&mut s, 1);
    assert!(s.registry.is_empty());
    goish::signal::register(&mut s, 1, &vec![2]);
    unregister_sigs(&mut s, &vec![]);
    assert!(s.registry.is_empty());
}

#[test]
fn signals_reach_every_channel_that_wants_them() {
    let mut s = Signals::new();
    goish::signal::register(&mut s, 1, &vec![2, 15]);
    goish::signal::register(&mut s, 2, &vec![15]);
    goish_sigtramp(&mut s, 15);
    goish_sigtramp(&mut s, 15);
    goish_sigtramp(&mut s, 2);
    goish_sigtramp(&mut s, 3);
    let d = |target, sig| Delivery { target, sig };
    assert_eq!(dispatch_pending(&mut s), vec![d(1, 2), d(1, 15), d(2, 15), d(1, 15), d(2, 15)]);
    assert!(dispatch_pending(&mut s).is_empty());
}

#[test]
fn some_signals_cannot_be_ignored() {
    assert_eq!(ignore_signal(13).unwrap().handler, Handler::Ignore);
    assert!(ignore_signal(9).is_none() && ignore_signal(19).is_none());
    assert!(ignore_signal(64).is_none() && ignore_signal(-3).is_none());
    assert_eq!(install_handler(2).flags, 0x1400_0000);
    assert!(is_ignored(5) && !is_ignored(64));
    assert!(ignored_answer(0, 1) && !ignored_answer(0, 0) && !ignored_answer(-22, 1));
}

// ---- preemption ----

fn ranges() -> SwitchRanges {
    SwitchRanges {
        trampoline: Section { start: 100, end: 200 },
        swap_context: Section { start: 200, end: 300 },
        gogo: Section { start: 300, end: 400 },
        mcall: Section { start: 400, end: 500 },
    }
}

#[test]
fn a_goroutine_is_preempted_outside_critical_code() {
    let mut p = Preempt::new();
    let rt = Section { start: 1000, end: 2000 };
    let mut g = GState { running: true, stack_lo: 0x10000, stack_hi: 0x20000, preempt: true };
    let at = |locks, pc, sp, has_curg, parking| Interrupted { locks, pc, sp, lr: 77, has_curg, parking };
    assert!(goish_preempt_sigtramp(&mut p, Target::LinuxAmd64, &at(1, 5000, 0x1f000, true, false), &mut g, &ranges(), &rt).is_none());
    for pc in [100, 250, 399, 400] {
        assert!(goish_preempt_sigtramp(&mut p, Target::LinuxAmd64, &at(0, pc, 0x1f000, true, false), &mut g, &ranges(), &rt).is_none());
    }
    assert!(goish_preempt_sigtramp(&mut p, Target::LinuxAmd64, &at(0, 1500, 0x1f000, true, false), &mut g, &ranges(), &rt).is_none());
    assert!(goish_preempt_sigtramp(&mut p, Target::LinuxAmd64, &at(0, 5000, 0x1f000, false, false), &mut g, &ranges(), &rt).is_none());
    assert!(goish_preempt_sigtramp(&mut p, Target::LinuxAmd64, &at(0, 5000, 0x1f000, true, true), &mut g, &ranges(), &rt).is_none());
    assert!(goish_preempt_sigtramp(&mut p, Target::LinuxAmd64, &at(0, 5000, 0x10000 + 4966, true, false), &mut g, &ranges(), &rt).is_none());
    assert!(goish_preempt_sigtramp(&mut p, Target::LinuxAmd64, &at(0, 5000, 0x20000, true, false), &mut g, &ranges(), &rt).is_none());
    assert!(g.preempt);
    let i = goish_preempt_sigtramp(&mut p, Target::LinuxAmd64, &at(0, 5000, 0x10000 + 4967, true, false), &mut g, &ranges(), &rt).unwrap();
    assert_eq!(i, Injection::Jump { slot: 0x10000 + 4967 - 144, value: 5000, sp: 0x10000 + 4967 - 8, pc: 100 });
    assert!(!g.preempt);
    g.running = false;
    assert!(goish_preempt_sigtramp(&mut p, Target::LinuxAmd64, &at(0, 5000, 0x1f000, true, false), &mut g, &ranges(), &rt).is_none());
    assert_eq!(skip_breakdown(&p), (1, 4, 1, 1, 1, 2));
    assert_eq!(p.skip_runtime_pc, 1);
    assert_eq!((invocations(&p), injections(&p)), (12, 1));
}

#[test]
fn each_system_preempts_in_its_own_way() {
    let rt = Section { start: 0, end: 0 };
    let t = Interrupted { locks: 0, pc: 5000, sp: 0x1f009, lr: 77, has_curg: true, parking: false };
    let mut p = Preempt::new();
    let mut g = GState { running: true, stack_lo: 0x10000, stack_hi: 0x20000, preempt: true };
    match goish_preempt_sigtramp(&mut p, Target::DarwinArm64, &t, &mut g, &ranges(), &rt) {
        Some(Injection::Call { frame, pc }) => {
            assert_eq!((frame.base, frame.lr, frame.sp, frame.pc, pc), (0x1ef60, 77, 0x1f009, 5000, 100));
        }
        _ => panic!("not called"),
    }
    assert!(!g.preempt);
    g.preempt = true;
    assert!(goish_preempt_sigtramp(&mut p, Target::LinuxArm64, &t, &mut g, &ranges(), &rt).is_none());
    assert!(!g.preempt);
    assert_eq!(injections(&p), 2);
}

#[test]
fn the_last_preemptions_are_kept_most_recent_first() {
    let mut p = Preempt::new();
    let rt = Section { start: 0, end: 0 };
    let mut g = GState { running: true, stack_lo: 0x10000, stack_hi: 0x20000, preempt: false };
    for pc in 1000..1040u64 {
        let t = Interrupted { locks: 0, pc, sp: 0x1f000, lr: 0, has_curg: true, parking: false };
        assert!(goish_preempt_sigtramp(&mut p, Target::LinuxAmd64, &t, &mut g, &ranges(), &rt).is_some());
    }
    let mut out = vec![0u64; 3];
    assert_eq!(snapshot_injection_pcs(&p, &mut out), 3);
    assert_eq!(out, vec![1039, 1038, 1037]);
    let mut out = vec![7u64; 40];
    assert_eq!(snapshot_injection_pcs(&p, &mut out), 32);
    assert_eq!((out[31], out[32]), (1008, 7));
    assert_eq!(snapshot_injection_pcs(&Preempt::new(), &mut out), 0);
}

#[test]
fn the_vector_state_is_sized_once() {
    let mut c = CpuInfo { max_leaf: 0x0d, features: 0x0c00_0000, supported_lo: 0xff, supported_hi: 0, xcr0: 0xe7, components: [(576, 256), (1088, 64), (1152, 512), (1664, 1024)] };
    assert_eq!(fp_state_layout(Target::LinuxAmd64, &c), (0xe7, 2688));
    assert_eq!(fp_state_layout(Target::DarwinArm64, &c), (0, 512));
    let mut p = Preempt::new();
    assert_eq!(async_preempt_stack(&p), ASYNC_PREEMPT_STACK);
    initialize_fp_state(&mut p, Target::LinuxAmd64, &c);
    assert_eq!(async_preempt_stack(&p), 4967 + 2688 - 512);
    c.xcr0 = 3;
    assert_eq!(fp_state_layout(Target::LinuxAmd64, &c), (3, 576));
    initialize_fp_state(&mut p, Target::LinuxAmd64, &c);
    assert_eq!(p.fp_size, 2688);
    c.xcr0 = 1;
    assert_eq!(fp_state_layout(Target::LinuxAmd64, &c), (0, 512));
    c.xcr0 = 7;
    c.features = 0x0800_0000;
    assert_eq!(fp_state_layout(Target::LinuxAmd64, &c), (0, 512));
    c.features = 0x0c00_0000;
    c.max_leaf = 0x0c;
    assert_eq!(fp_state_layout(Target::LinuxAmd64, &c), (0, 512));
}

#[test]
fn a_preempted_context_is_restored() {
    let f = push_call(0x1009, 5, 6);
    assert_eq!(f.base, 0xf60);
    assert_eq!((f.lr, f.sp, f.pc), (5, 0x1009, 6));
    let mut words = [0u64; 32];
    for i in 0..32 {
        words[i] = 100 + i as u64;
    }
    words[30] = 0xffff_ffff_6fff_ffff;
    words[31] = 0x0000_0002_0000_0001;
    let area = SavedArea { words, v: vec![9; 512] };
    let mut t = ThreadState { x: [1; 29], fp: 0, lr: 0, sp: 0, pc: 0, cpsr: 0x9000_0005, v: vec![0; 512], fpsr: 0, fpcr: 0 };
    restore_preempt_frame(&mut t, &area, 7, 8, 9);
    assert_eq!((t.x[0], t.x[17], t.x[18], t.x[28]), (100, 117, 1, 128));
    assert_eq!((t.fp, t.lr, t.sp, t.pc), (129, 7, 8, 9));
    assert_eq!(t.cpsr, 0x6000_0005);
    assert_eq!((t.fpsr, t.fpcr), (1, 2));
    assert_eq!(t.v, vec![9; 512]);
    assert_eq!(goish_preempt_restore(5, 0x100, 6), TrapAction::Default);
    assert_eq!(goish_preempt_restore(6, 0x100, 6), TrapAction::Restore { area: 0x110, frame: 0x410 });
}

#[test]
fn interrupted_registers_are_read_and_replaced() {
    let mut gregs = [0u64; 23];
    gregs[16] = 11;
    gregs[15] = 12;
    gregs[10] = 13;
    let mut c = UcontextT { uc_flags: 0, uc_link: 0, uc_stack: StackT { ss_sp: 0, ss_flags: 0, ss_size: 0 }, uc_mcontext: McontextT { gregs, fpregs: 0 } };
    assert_eq!((goish::sigctx::pc(&c), goish::sigctx::sp(&c), goish::sigctx::fp(&c)), (11, 12, 13));
    goish::sigctx::set_pc(&mut c, 21);
    goish::sigctx::set_sp(&mut c, 22);
    assert_eq!((goish::sigctx::pc(&c), goish::sigctx::sp(&c), goish::sigctx::fp(&c)), (21, 22, 13));
    let mut info = vec![0u8; 32];
    info[16] = 0x34;
    info[17] = 0x12;
    assert_eq!(goish::sigctx::fault_addr(&info, 16), 0x1234);
    let s = Section { start: 10, end: 20 };
    assert!(is_in_runtime(&s, 10) && is_in_runtime(&s, 19) && !is_in_runtime(&s, 20) && !is_in_runtime(&s, 9));
    assert_eq!(section_bounds(&s), (10, 20, 10));
}

// ---- stack overflow ----

#[test]
fn spawn_sites_are_found_and_forgotten() {
    let mut t = SpawnTable::new();
    register(&mut t, 0x1000, b"a.rs", 3);
    register(&mut t, 0x2000, b"b.rs", 4);
    register(&mut t, 0, b"c.rs", 5);
    assert_eq!(lookup(&t, 0x1000), Some((v("a.rs"), 3)));
    assert_eq!(lookup(&t, 0x2000), Some((v("b.rs"), 4)));
    assert_eq!(lookup(&t, 0x3000), None);
    assert_eq!(lookup(&t, 0), None);
    unregister(&mut t, 0x1000);
    assert_eq!(lookup(&t, 0x1000), None);
    assert_eq!(lookup(&t, 0x2000), Some((v("b.rs"), 4)));
}

#[test]
fn colliding_goroutines_are_kept_apart() {
    let mut t = SpawnTable::new();
    register(&mut t, 0x20, b"a.rs", 1);
    register(&mut t, 0x21, b"b.rs", 2);
    assert_eq!(lookup(&t, 0x20), Some((v("a.rs"), 1)));
    assert_eq!(lookup(&t, 0x21), Some((v("b.rs"), 2)));
    unregister(&mut t, 0x20);
    assert_eq!(lookup(&t, 0x20), None);
    assert_eq!(lookup(&t, 0x21), Some((v("b.rs"), 2)));
    register(&mut t, 0x22, b"c.rs", 3);
    assert_eq!(lookup(&t, 0x22), Some((v("c.rs"), 3)));
    assert_eq!(lookup(&t, 0x21), Some((v("b.rs"), 2)));
    unregister(&mut t, 0);
    assert_eq!(lookup(&t, 0x22), Some((v("c.rs"), 3)));
}

#[test]
fn a_wake_up_seen_without_blocking_is_relayed() {
    let mut np = poller(2);
    let e = EpollEvent { events: EPOLLIN, data: 1 };
    let out = poll_shard(&mut np, 1, 0, &vec![e], &vec![false]);
    assert_eq!((out.drains, out.relays), (0, vec![1]));
    let out = poll_shard(&mut np, 1, 5, &vec![e], &vec![false]);
    assert_eq!((out.drains, out.relays), (1, vec![]));
    let quiet = Batch { events: Vec::new(), gone: Vec::new() };
    let out = poll_all(&mut np, &vec![quiet, Batch { events: vec![e], gone: vec![false] }]);
    assert_eq!(out.relays, vec![1]);
}

#[test]
fn the_slot_that_became_free_last_is_used_again_first() {
    let mut np = poller(1);
    for fd in 0..3 {
        let r = open(&mut np, fd);
        assert_eq!(open_done(&mut np, r.slot, 0), Some(fd as u32));
    }
    close(&mut np, 0);
    close(&mut np, 2);
    assert_eq!(open(&mut np, 7).slot, 2);
    assert_eq!(open(&mut np, 8).slot, 0);
    assert_eq!(open(&mut np, 9).slot, 3);
    assert_eq!(live_count(&np), 1);
}

#[test]
fn the_report_starts_with_the_faulting_frame() {
    let mut t = SpawnTable::new();
    register(&mut t, 9, b"m.rs", 4);
    let unknown = || Frame { known: false, info: Default::default() };
    let region = Region::HomeOverflow { lo: 0x10000, hi: 0x12000 };
    let o = overflow(unknown(), vec![unknown(), unknown()], &t, 9, region, 1, 2, 3);
    assert_eq!(o.frames.len(), 3);
    assert_eq!(o.site, Some((v("m.rs"), 4)));
    assert_eq!((o.region, o.fault_addr, o.pc, o.sp), (region, 1, 2, 3));
    assert_eq!(overflow(unknown(), Vec::new(), &t, 8, region, 1, 2, 3).site, None);
}

#[test]
fn forgetting_one_of_two_that_hash_alike_keeps_the_other() {
    let mut t = SpawnTable::new();
    register(&mut t, 32, b"a.rs", 1);
    register(&mut t, 131104, b"b.rs", 2);
    unregister(&mut t, 32);
    assert_eq!(lookup(&t, 32), None);
    assert_eq!(lookup(&t, 131104), Some((v("b.rs"), 2)));
}

#[test]
fn a_full_table_drops_records() {
    let mut t = SpawnTable::new();
    for i in 1..4097usize {
        register(&mut t, i * 64, b"x", i as u32);
    }
    register(&mut t, 7, b"y", 1);
    assert_eq!(lookup(&t, 7), None);
    assert_eq!(lookup(&t, 64), Some((v("x"), 1)));
}

fn stacks() -> GStacks {
    GStacks { home_lo: 0x10000, home_hi: 0x12000, regions: vec![(0x40000, 0x1000)], active_lo: 0x80000, active_hi: 0x90000, guard: 4096 }
}

#[test]
fn faults_are_told_apart() {
    let g = stacks();
    let home = Region::HomeOverflow { lo: 0x10000, hi: 0x12000 };
    assert_eq!(classify(&g, 0xffff), home);
    assert_eq!(classify(&g, 0xf000), home);
    assert_eq!(classify(&g, 0x1001f), home);
    assert_eq!(classify(&g, 0xefff), Region::Unrelated);
    assert_eq!(classify(&g, 0x10020), Region::Unrelated);
    assert_eq!(classify(&g, 0x3fff0), Region::GrownOverflow { lo: 0x40000, hi: 0x41000 });
    assert_eq!(classify(&g, 0x80000), Region::GrownOverflow { lo: 0x80000, hi: 0x90000 });
    assert_eq!(classify(&g, 0x77), Region::Unrelated);
}

#[test]
fn frames_are_walked_upwards() {
    let mem = Memory { base: 0x1000, words: &[0x1010, 0xa, 0x1020, 0xb, 0x1000, 0xc] };
    let mut out = [9u64; 32];
    assert_eq!(walk_frames(&mem, 0x1000, 0x1000, 0x1030, &mut out), 3);
    assert_eq!(out[..4], [0xa, 0xb, 0xc, 9]);
    assert_eq!(walk_frames(&mem, 0x1000, 0x1000, 0x1028, &mut out), 2);
    assert_eq!(walk_frames(&mem, 0x1004, 0x1000, 0x1030, &mut out), 0);
    assert_eq!(walk_frames(&mem, 0, 0, 0x1030, &mut out), 0);
    match goish_segv_sigtramp(&Some(stacks()), 0xffff, 0x10008, &Memory { base: 0x10000, words: &[0, 0, 0x77] }) {
        SegvAction::Report { region, frames, n } => {
            assert_eq!(region, Region::HomeOverflow { lo: 0x10000, hi: 0x12000 });
            assert_eq!(frames[..n], [0x77]);
        }
        _ => panic!("not reported"),
    }
    assert!(matches!(goish_segv_sigtramp(&Some(stacks()), 0x77, 0, &mem), SegvAction::Default));
    assert!(matches!(goish_segv_sigtramp(&None, 0xffff, 0, &mem), SegvAction::Default));
}

#[test]
fn an_overflow_is_reported() {
    let mut info = SymInfo::default();
    info.fn_name[..4].copy_from_slice(b"main");
    info.fn_name_len = 4;
    info.file[..4].copy_from_slice(b"a.rs");
    info.file_len = 4;
    info.line = 12;
    info.fn_offset = 0x2f;
    let f = Frame { known: true, info };
    assert_eq!(write_frame(&f), v("main(...)\n\ta.rs:12 +0x2f\n"));
    let u = Frame { known: false, info: SymInfo::default() };
    assert_eq!(write_frame(&u), v("<unknown>(...)\n\t???:0 +0x0\n"));
    let o = Overflow { frames: vec![u], site: Some((v("b.rs"), 9)), region: Region::HomeOverflow { lo: 0x10000, hi: 0x12000 }, fault_addr: 0xffff, pc: 1, sp: 2 };
    let want = "\ngoish: runtime error: stack overflow\n\ngoroutine 1 [running]:\n<unknown>(...)\n\t???:0 +0x0\n\t(no frames recovered - RBP chain unavailable)\n\ncreated by b.rs:9 (go!())\n\tg.stack: 0x0000000000010000-0x0000000000012000 (8192 bytes, home)\n\tfault: SIGSEGV at 0x000000000000ffff (PC=0x0000000000000001 SP=0x0000000000000002)\n\nremedy:\n\tbump the spawn-site stack:    go!(stack(4 * MB), || ...)\n\tor raise all bare-go stacks:  runtime::debug::SetMaxStack(64 * MB)\n\tor wrap the recursion site:   runtime::sched::maybe_grow(64 * KB, 4 * MB, || ...)\n";
    assert_eq!(String::from_utf8(report(&o)).unwrap(), want);
    assert_eq!(write_hex(0xabc), v("0x0000000000000abc"));
    assert_eq!(write_hex_compact(0), v("0"));
    assert_eq!(write_hex_compact(0x10f), v("10f"));
}

// ---- the profile ----

#[test]
fn a_profile_is_started_sampled_and_stopped() {
    let mut p = Profile::new();
    assert_eq!(start(&mut p, 0), StartStep::Refused);
    assert_eq!(start(&mut p, 100), StartStep::InstallHandler);
    assert_eq!(period_ns(&p), 10_000_000);
    let mem = Memory { base: 0x1000, words: &[0, 0xa] };
    assert!(!goish_prof_sigtramp(&mut p, 5, 0x1000, Some((0x1000, 0x1010)), &mem));
    assert_eq!(handler_installed(&mut p, 0), StartStep::ArmTimer { usec: 10_000 });
    assert!(timer_armed(&mut p, 0));
    assert!(!goish_prof_sigtramp(&mut p, 5, 0x1000, None, &mem));
    assert!(goish_prof_sigtramp(&mut p, 5, 0x1000, Some((0x1000, 0x1010)), &mem));
    assert!(goish_prof_sigtramp(&mut p, 6, 0, Some((0x1000, 0x1010)), &mem));
    stop(&mut p);
    assert!(!goish_prof_sigtramp(&mut p, 7, 0, Some((0x1000, 0x1010)), &mem));
    assert_eq!(taken(&p), 2);
    assert_eq!(for_each(&p), vec![0, 1]);
    assert_eq!(p.ring[0].pcs[..p.ring[0].depth], [5, 0xa]);
    assert_eq!(p.ring[1].pcs[..p.ring[1].depth], [6]);
    assert_eq!(stack_bounds(true, Some((1, 2))), Some((1, 2)));
    assert_eq!(stack_bounds(true, Some((0, 2))), None);
    assert_eq!(stack_bounds(true, Some((2, 2))), None);
    assert_eq!(stack_bounds(false, Some((1, 2))), None);
}

#[test]
fn a_refused_profile_takes_no_samples() {
    let mut p = Profile::new();
    start(&mut p, 50);
    assert_eq!(handler_installed(&mut p, -22), StartStep::Refused);
    assert!(!p.active);
    assert_eq!(handler_installed(&mut p, 0), StartStep::ArmTimer { usec: 20_000 });
    assert!(!timer_armed(&mut p, -22));
    assert!(!p.active);
}

#[test]
fn a_long_profile_keeps_the_last_samples() {
    let mut p = Profile::new();
    start(&mut p, 100);
    handler_installed(&mut p, 0);
    let mem = Memory { base: 0, words: &[] };
    for i in 0..(RING as u64 + 2) {
        goish_prof_sigtramp(&mut p, i, 0, Some((1, 2)), &mem);
    }
    assert_eq!(taken(&p), RING + 2);
    assert_eq!(for_each(&p).len(), RING);
    assert_eq!(p.ring[0].pcs[..p.ring[0].depth], [RING as u64]);
    assert_eq!(p.ring[2].pcs[..p.ring[2].depth], [2]);
}

// ---- the C library ----

#[test]
fn library_results_follow_the_kernel() {
    assert_eq!(errno_ret(-1, 5), -5);
    assert_eq!(errno_ret(7, 5), 7);
    assert_eq!(direct_ret(0), 0);
    assert_eq!(direct_ret(22), -22);
    assert_eq!(ptr_ret(-1, 12), -12);
    assert_eq!(ptr_ret(4096, 12), 4096);
    assert_eq!(sys_getcwd(true, b"/tmp\0x", 0), 5);
    assert_eq!(sys_getcwd(false, b"", 34), -34);
    assert_eq!(sys_executable_path(0, b"/bin/x\0"), 6);
    assert_eq!(sys_executable_path(-1, b""), -1);
    assert_eq!(kevent_timeout(None), None);
    assert_eq!(kevent_timeout(Some(-5)), Some((0, 0)));
    assert_eq!(kevent_timeout(Some(1_500_000_000)), Some((1, 500_000_000)));
    assert_eq!(kevent_timeout(Some(i64::MAX)).unwrap().0, 1_000_000);
    assert_eq!((sys_ulock_wait(-4), sys_ulock_wait(3)), (-4, 0));
    assert_eq!((sys_ulock_wake(-2), sys_ulock_wake(0)), (0, 1));
    assert_eq!((ulock_wake_op(false), ulock_wake_op(true)), (0x0100_0001, 0x0100_0101));
    let ok = SpawnAnswers { init: 0, set_stack: 0, set_detached: 0, create: 0, thread: 99 };
    assert_eq!(sys_pthread_spawn(&ok), 99);
    let bad = SpawnAnswers { init: 0, set_stack: 22, set_detached: 1, create: 0, thread: 99 };
    assert_eq!(sys_pthread_spawn(&bad), -22);
}

#[test]
fn the_thread_slot_is_found_by_its_mark() {
    let mut slots = vec![0u64; 512];
    slots[0] = MAGIC;
    assert_eq!(find_slot(&slots), None);
    slots[300] = MAGIC;
    assert_eq!(find_slot(&slots), Some(2400));
    assert!(slot_agrees(MAGIC) && !slot_agrees(0));
}
