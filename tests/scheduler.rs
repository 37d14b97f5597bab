use async_nostd::executor::{
    close_eventfd, dump_scheduled, ensure_eventfd, finish_task, get_eventfd, get_extra_wait_fd,
    is_handle_scheduled, next_task, note_eventfd_read, register_fd_waker, register_task,
    schedule_ready, set_extra_wait_fd, spawn_task, take_scheduled_task, unregister_fd,
    wake_handle, Executor, Job,
};
use async_nostd::handle::{encode_handle, handle_generation, handle_index};
use async_nostd::reactor::{build_poll_set, PollFd, POLLIN, POLLOUT};
use async_nostd::notify::Notify;
use async_nostd::run_queue::RunQueue;
use async_nostd::task_table::{Advance, PollEnd};

type Ex = Executor<&'static str, u64>;

fn run_next(ex: &mut Ex) -> Option<(u64, &'static str)> {
    match next_task(ex) {
        Job::Run(h, t) => Some((h, t)),
        _ => None,
    }
}

#[test]
fn one_shot_task_completes() {
    let mut ex: Ex = Executor::with_capacity(4);
    let (h, signal) = spawn_task(&mut ex, "one").unwrap();
    assert!(signal);
    assert_eq!(ex.outstanding(), 1);
    let (got, task) = run_next(&mut ex).unwrap();
    assert_eq!(got, h);
    assert_eq!(task, "one");
    assert_eq!(finish_task(&mut ex, h, Advance::Completed), (PollEnd::Completed, false));
    assert_eq!(ex.outstanding(), 0);
    assert!(matches!(next_task(&mut ex), Job::Idle));
}

#[test]
fn self_rescheduling_task_runs_twice() {
    let mut ex: Ex = Executor::with_capacity(4);
    let (h, _) = spawn_task(&mut ex, "again").unwrap();
    let mut advances = 0;
    let (_, t) = run_next(&mut ex).unwrap();
    advances += 1;
    wake_handle(&mut ex, h);
    assert_eq!(finish_task(&mut ex, h, Advance::Pending(t)).0, PollEnd::Parked);
    let (h2, _) = run_next(&mut ex).unwrap();
    advances += 1;
    assert_eq!(h2, h);
    assert_eq!(finish_task(&mut ex, h, Advance::Completed).0, PollEnd::Completed);
    assert_eq!(advances, 2);
    assert_eq!(ex.outstanding(), 0);
    assert!(matches!(next_task(&mut ex), Job::Idle));
}

#[test]
fn cross_task_wake_through_descriptor() {
    let mut ex: Ex = Executor::with_capacity(4);
    let (ha, _) = spawn_task(&mut ex, "a").unwrap();
    let (hb, _) = spawn_task(&mut ex, "b").unwrap();
    // LIFO: b first.
    let (h, _) = run_next(&mut ex).unwrap();
    assert_eq!(h, hb);
    assert_eq!(finish_task(&mut ex, hb, Advance::Completed).0, PollEnd::Completed);
    let (h, t) = run_next(&mut ex).unwrap();
    assert_eq!(h, ha);
    register_fd_waker(&mut ex, 7, POLLIN, ha);
    assert_eq!(finish_task(&mut ex, ha, Advance::Pending(t)).0, PollEnd::Parked);
    assert!(matches!(next_task(&mut ex), Job::Idle));
    let fds = vec![
        PollFd { fd: 3, events: POLLIN, revents: 0 },
        PollFd { fd: 7, events: POLLIN, revents: POLLIN },
    ];
    let (drain, wakers) = schedule_ready(&mut ex, &fds);
    assert!(!drain);
    assert_eq!(wakers, vec![ha]);
    for w in wakers {
        wake_handle(&mut ex, w);
    }
    let (h, _) = run_next(&mut ex).unwrap();
    assert_eq!(h, ha);
    finish_task(&mut ex, ha, Advance::Completed);
    assert_eq!(ex.outstanding(), 0);
}

#[test]
fn many_tasks_drain_to_zero() {
    let mut ex: Ex = Executor::with_capacity(1024);
    let mut done = 0;
    for round in 0..10 {
        for _ in 0..1000 {
            spawn_task(&mut ex, "noop").unwrap();
        }
        assert_eq!(ex.outstanding(), 1000);
        while let Some((h, _)) = run_next(&mut ex) {
            assert_eq!(finish_task(&mut ex, h, Advance::Completed).0, PollEnd::Completed);
            done += 1;
        }
        assert_eq!(ex.outstanding(), 0);
        assert_eq!(done, (round + 1) * 1000);
    }
    assert_eq!(ex.tasks.capacity(), 1024);
    assert_eq!(ex.queue.spare(), async_nostd::config::FREELIST_MAX);
}

#[test]
fn spare_nodes_stay_under_cap() {
    let mut q = RunQueue::new(2);
    for h in 0..3u64 {
        q.push(h);
    }
    assert_eq!(q.spare(), 0);
    assert_eq!(q.pop(), Some(2));
    assert_eq!(q.spare(), 1);
    assert_eq!(q.pop(), Some(1));
    assert_eq!(q.pop(), Some(0));
    assert_eq!(q.spare(), 2);
    assert_eq!(q.pop(), None);
    q.push(9);
    assert_eq!(q.spare(), 1);
    assert!(q.contains_near_top(9));
    assert!(!q.contains_near_top(2));
    assert_eq!(q.peek_top(5), vec![9]);
}

#[test]
fn two_waiters_on_one_descriptor_both_wake() {
    let mut ex: Ex = Executor::with_capacity(4);
    let (h1, _) = spawn_task(&mut ex, "x").unwrap();
    let (h2, _) = spawn_task(&mut ex, "y").unwrap();
    register_fd_waker(&mut ex, 9, POLLIN, h1);
    register_fd_waker(&mut ex, 9, POLLIN, h2);
    assert_eq!(async_nostd::executor::fd_snapshot(&ex), vec![(9, POLLIN)]);
    let mut fds = build_poll_set(5, &async_nostd::executor::fd_snapshot(&ex));
    fds[1].revents = POLLIN;
    let (_, wakers) = schedule_ready(&mut ex, &fds);
    assert_eq!(wakers, vec![h1, h2]);
    assert!(async_nostd::executor::fd_snapshot(&ex).is_empty());
}

#[test]
fn stale_handle_does_not_touch_new_task() {
    let mut ex: Ex = Executor::with_capacity(4);
    let (ha, _) = spawn_task(&mut ex, "a").unwrap();
    let (h, _) = run_next(&mut ex).unwrap();
    assert_eq!(h, ha);
    finish_task(&mut ex, ha, Advance::Completed);
    let (hb, _) = spawn_task(&mut ex, "b").unwrap();
    assert_eq!(handle_index(hb), handle_index(ha));
    assert_ne!(hb, ha);
    wake_handle(&mut ex, ha);
    assert!(matches!(next_task(&mut ex), Job::Stale(x) if x == ha));
    assert_eq!(finish_task(&mut ex, ha, Advance::Completed).0, PollEnd::Ignored);
    let (h, t) = run_next(&mut ex).unwrap();
    assert_eq!((h, t), (hb, "b"));
}

#[test]
fn live_handles_are_distinct() {
    let mut ex: Ex = Executor::with_capacity(8);
    let mut hs = Vec::new();
    for _ in 0..8 {
        hs.push(register_task(&mut ex, "t").unwrap());
    }
    for i in 0..8 {
        for j in 0..8 {
            if i != j {
                assert_ne!(hs[i], hs[j]);
            }
        }
    }
    assert_eq!(register_task(&mut ex, "overflow"), None);
}

#[test]
fn completions_equal_spawns_when_quiescent() {
    let mut ex: Ex = Executor::with_capacity(3);
    let mut spawned = 0;
    let mut completed = 0;
    for _ in 0..3 {
        spawn_task(&mut ex, "t").unwrap();
        spawned += 1;
    }
    while let Some((h, _)) = run_next(&mut ex) {
        if finish_task(&mut ex, h, Advance::Completed).0 == PollEnd::Completed {
            completed += 1;
        }
    }
    assert_eq!(ex.outstanding(), 0);
    assert_eq!(completed, spawned);
}

#[test]
fn slot_generation_never_decreases() {
    let mut ex: Ex = Executor::with_capacity(1);
    let mut last = ex.tasks.generation(0);
    for _ in 0..5 {
        let (h, _) = spawn_task(&mut ex, "t").unwrap();
        assert!(ex.tasks.generation(0) > last);
        last = ex.tasks.generation(0);
        assert_eq!(handle_generation(h) + 1, last);
        run_next(&mut ex).unwrap();
        finish_task(&mut ex, h, Advance::Completed);
        assert_eq!(ex.tasks.generation(0), last);
    }
}

#[test]
fn duplicate_wake_while_running_reruns_once() {
    let mut ex: Ex = Executor::with_capacity(2);
    let (h, _) = spawn_task(&mut ex, "dup").unwrap();
    wake_handle(&mut ex, h);
    assert_eq!(dump_scheduled(&ex, 10), vec![h, h]);
    let (_, t) = run_next(&mut ex).unwrap();
    assert!(matches!(next_task(&mut ex), Job::Busy(x) if x == h));
    let (end, _) = finish_task(&mut ex, h, Advance::Pending(t));
    assert_eq!(end, PollEnd::Rewoken);
    assert!(is_handle_scheduled(&ex, h));
    let (h2, t2) = run_next(&mut ex).unwrap();
    assert_eq!((h2, t2), (h, "dup"));
    assert_eq!(finish_task(&mut ex, h, Advance::Completed).0, PollEnd::Completed);
    assert!(matches!(next_task(&mut ex), Job::Idle));
}

#[test]
fn wakes_and_takes_round_trip() {
    let mut ex: Ex = Executor::with_capacity(2);
    for h in 1..=5u64 {
        wake_handle(&mut ex, h);
    }
    let mut taken = Vec::new();
    for _ in 0..5 {
        taken.push(take_scheduled_task(&mut ex).unwrap());
    }
    assert_eq!(taken, vec![5, 4, 3, 2, 1]);
    assert_eq!(take_scheduled_task(&mut ex), None);
    assert!(dump_scheduled(&ex, 4).is_empty());
}

#[test]
fn wake_signal_coalesces_until_drained() {
    let mut ex: Ex = Executor::with_capacity(2);
    assert!(wake_handle(&mut ex, 1));
    assert!(!wake_handle(&mut ex, 2));
    assert_eq!(ex.pending, 2);
    let fds = vec![PollFd { fd: 4, events: POLLIN, revents: POLLIN }];
    let (drain, wakers) = schedule_ready(&mut ex, &fds);
    assert!(drain);
    assert!(wakers.is_empty());
    assert_eq!(ex.pending, 0);
    assert!(wake_handle(&mut ex, 3));
    assert_eq!(schedule_ready(&mut ex, &Vec::new()), (false, Vec::new()));
}

#[test]
fn eventfd_read_settles_counter() {
    let mut ex: Ex = Executor::with_capacity(2);
    wake_handle(&mut ex, 1);
    wake_handle(&mut ex, 2);
    wake_handle(&mut ex, 3);
    assert!(note_eventfd_read(&mut ex, 1));
    assert_eq!(ex.pending, 2);
    assert!(!note_eventfd_read(&mut ex, 5));
    assert_eq!(ex.pending, 0);
}

#[test]
fn eventfd_install_and_close() {
    let mut ex: Ex = Executor::with_capacity(2);
    assert_eq!(get_eventfd(&ex), -1);
    assert_eq!(ensure_eventfd(&mut ex, -1), (-1, None));
    assert_eq!(ensure_eventfd(&mut ex, 12), (12, None));
    assert_eq!(ensure_eventfd(&mut ex, 13), (12, Some(13)));
    assert_eq!(get_eventfd(&ex), 12);
    assert_eq!(close_eventfd(&mut ex), Some(12));
    assert_eq!(close_eventfd(&mut ex), None);
    assert_eq!(get_extra_wait_fd(&ex), -1);
    set_extra_wait_fd(&mut ex, 21);
    assert_eq!(get_extra_wait_fd(&ex), 21);
}

#[test]
fn unregister_drops_waiters_and_keeps_others() {
    let mut ex: Ex = Executor::with_capacity(2);
    register_fd_waker(&mut ex, 3, POLLIN, 30);
    register_fd_waker(&mut ex, 4, POLLOUT, 40);
    register_fd_waker(&mut ex, 3, POLLOUT, 31);
    assert_eq!(async_nostd::executor::fd_snapshot(&ex), vec![(3, POLLIN), (4, POLLOUT)]);
    unregister_fd(&mut ex, 3);
    unregister_fd(&mut ex, 99);
    assert_eq!(async_nostd::executor::fd_snapshot(&ex), vec![(4, POLLOUT)]);
    let fds = build_poll_set(1, &vec![(3, POLLIN), (4, POLLOUT)]);
    assert_eq!(fds[0], PollFd { fd: 1, events: POLLIN, revents: 0 });
    assert_eq!(fds.len(), 3);
    let mut fds = fds;
    fds[1].revents = POLLIN;
    fds[2].revents = POLLOUT;
    let (_, w) = schedule_ready(&mut ex, &fds);
    assert_eq!(w, vec![40]);
}

#[test]
fn handle_encoding_round_trips() {
    let h = encode_handle(5, 7);
    assert_eq!(h, (5u64 << 32) | 7);
    assert_eq!(handle_index(h), 5);
    assert_eq!(handle_generation(h), 7);
    let h = encode_handle(1, 0x1_0000_0003);
    assert_eq!(handle_index(h), 1);
    assert_eq!(handle_generation(h), 3);
}

#[test]
fn default_executor_has_full_table() {
    let ex: Ex = Executor::new();
    assert_eq!(ex.tasks.capacity(), async_nostd::config::MAX_TASK_SLOTS);
    assert_eq!(ex.outstanding(), 0);
}

#[test]
fn enqueue_task_schedules() {
    let mut ex: Ex = Executor::with_capacity(2);
    let (h, signal) = ex.enqueue_task("e").unwrap();
    assert!(signal);
    assert_eq!(take_scheduled_task(&mut ex), Some(h));
}

#[test]
fn notify_releases_at_total() {
    let mut n: Notify<u32> = Notify::new();
    assert!(n.register_and_maybe_wake_all(0, 3, 10).is_empty());
    assert!(n.register_and_maybe_wake_all(1, 3, 11).is_empty());
    assert_eq!(n.register_and_maybe_wake_all(2, 3, 12), vec![10, 11, 12]);
    assert!(n.register_and_maybe_wake_all(3, 2, 13).is_empty());
    n.reset();
    assert!(n.register_and_maybe_wake_all(4, 2, 14).is_empty());
}
