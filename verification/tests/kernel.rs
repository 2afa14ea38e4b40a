use desim::{Context, Effect, EndCondition, Event, Process, ProcessState, SimError, Simulation};

#[derive(Debug, Copy, Clone, PartialEq)]
enum TestMessage {
    MessageType1,
    MessageType2(&'static str),
}

/// Every process body the scenarios need, one variant per role.
enum Proc {
    /// Yields ever-growing timeouts: 10, 20, 30, ...
    Accumulate { next: u64 },
    /// Yields the same timeout forever.
    Tick { period: u64 },
    /// Request a resource, hold it for a while, release it, complete.
    HoldResource { rid: usize, hold: u64, phase: u8 },
    /// Request a resource, release it at once, complete.
    GrabAndRelease { rid: usize, phase: u8 },
    /// Sleeps twice; checks its interrupt flag and the clock in between.
    AssertInterrupted { phase: u8 },
    /// Sleeps, then interrupts process 1, then completes.
    Interrupter { delay: u64, phase: u8 },
    /// Waits; once resumed, expects exactly one message at time 12.
    WaitForMessage { phase: u8 },
    /// Sleeps, then sends "hello there" to process 1 with latency 2.
    SendHello { phase: u8 },
    /// Schedules process 2 five ticks from now and never yields again.
    ScheduleOther { phase: u8 },
    /// Requests a resource id that was never created.
    RequestBad { phase: u8 },
    /// Releases a resource whose pool is already full.
    ReleaseBad { rid: usize, phase: u8 },
    /// Completes on its first resumption.
    FinishNow,
    /// Yields a timeout so large that the schedule time saturates.
    BigTimeout,
}

impl Process<TestMessage> for Proc {
    fn resume(&mut self, ctx: &mut Context<TestMessage>) -> ProcessState<TestMessage> {
        match self {
            Proc::Accumulate { next } => {
                *next += 10;
                println!("time {}", ctx.time());
                ProcessState::Yielded(Effect::TimeOut(*next))
            }
            Proc::Tick { period } => {
                println!("tik");
                ProcessState::Yielded(Effect::TimeOut(*period))
            }
            Proc::HoldResource { rid, hold, phase } => {
                *phase += 1;
                match *phase {
                    1 => ProcessState::Yielded(Effect::Request(*rid)),
                    2 => ProcessState::Yielded(Effect::TimeOut(*hold)),
                    3 => ProcessState::Yielded(Effect::Release(*rid)),
                    _ => ProcessState::Completed,
                }
            }
            Proc::GrabAndRelease { rid, phase } => {
                *phase += 1;
                match *phase {
                    1 => ProcessState::Yielded(Effect::Request(*rid)),
                    2 => ProcessState::Yielded(Effect::Release(*rid)),
                    _ => ProcessState::Completed,
                }
            }
            Proc::AssertInterrupted { phase } => {
                *phase += 1;
                match *phase {
                    1 => ProcessState::Yielded(Effect::TimeOut(10)),
                    2 => {
                        println!("process #1: time {}", ctx.time());
                        assert!(!ctx.check_interrupted(1));
                        assert_eq!(ctx.time(), 10);
                        ProcessState::Yielded(Effect::TimeOut(10))
                    }
                    _ => {
                        println!("process #1: time {}", ctx.time());
                        assert!(ctx.check_interrupted(1));
                        assert_eq!(ctx.time(), 11);
                        ProcessState::Completed
                    }
                }
            }
            Proc::Interrupter { delay, phase } => {
                *phase += 1;
                match *phase {
                    1 => ProcessState::Yielded(Effect::TimeOut(*delay)),
                    2 => {
                        println!("{}: interrupting process #1", ctx.time());
                        ProcessState::Yielded(Effect::Interrupt(1))
                    }
                    _ => ProcessState::Completed,
                }
            }
            Proc::WaitForMessage { phase } => {
                *phase += 1;
                match *phase {
                    1 => ProcessState::Yielded(Effect::Wait),
                    _ => {
                        println!("process #1: time {}", ctx.time());
                        assert_eq!(ctx.time(), 12);
                        let m1 = ctx.pop_message(1);
                        assert_eq!(m1.expect("message expected"), TestMessage::MessageType2("hello there"));
                        let m2 = ctx.pop_message(1);
                        assert!(m2.is_none());
                        ProcessState::Completed
                    }
                }
            }
            Proc::SendHello { phase } => {
                *phase += 1;
                match *phase {
                    1 => ProcessState::Yielded(Effect::TimeOut(10)),
                    2 => {
                        println!("{}: sending message to process #1", ctx.time());
                        ProcessState::Yielded(Effect::SendMessage(
                            1,
                            TestMessage::MessageType2("hello there"),
                            2,
                        ))
                    }
                    _ => ProcessState::Completed,
                }
            }
            Proc::ScheduleOther { phase } => {
                *phase += 1;
                match *phase {
                    1 => ProcessState::Yielded(Effect::Event(Event { time: 5, process: 2 })),
                    _ => ProcessState::Completed,
                }
            }
            Proc::RequestBad { phase } => {
                *phase += 1;
                match *phase {
                    1 => ProcessState::Yielded(Effect::Request(0)),
                    _ => ProcessState::Completed,
                }
            }
            Proc::ReleaseBad { rid, phase } => {
                *phase += 1;
                match *phase {
                    1 => ProcessState::Yielded(Effect::Release(*rid)),
                    _ => ProcessState::Completed,
                }
            }
            Proc::FinishNow => ProcessState::Completed,
            Proc::BigTimeout => ProcessState::Yielded(Effect::TimeOut(u64::MAX)),
        }
    }
}

fn ev(time: u64, process: usize) -> Event {
    Event { time, process }
}

#[test]
fn it_works() {
    let mut s: Simulation<TestMessage, Proc> = Simulation::new(Context::new());
    s.create_process(1, Proc::Accumulate { next: 0 });
    s.schedule_event(ev(0, 1));
    s.step().unwrap();
    s.step().unwrap();
    assert_eq!(s.context().time(), 10);
    s.step().unwrap();
    assert_eq!(s.context().time(), 30);
    s.step().unwrap();
    assert_eq!(s.context().time(), 60);
}

#[test]
fn run() {
    let mut s: Simulation<TestMessage, Proc> = Simulation::new(Context::new());
    s.create_process(1, Proc::Tick { period: 7 });
    s.schedule_event(ev(0, 1));
    let s = s.run(EndCondition::Time(100)).unwrap();
    println!("{}", s.context().time());
    assert!(s.context().time() >= 100);
    assert!(s.context().time() < 107);
}

#[test]
fn resource() {
    let mut s: Simulation<TestMessage, Proc> = Simulation::new(Context::new());
    let r = s.create_resource(1);

    // a process that locks the resource for 70 time units
    s.create_process(1, Proc::HoldResource { rid: r, hold: 70, phase: 0 });
    // a process that holds the resource for 30 time units
    s.create_process(2, Proc::HoldResource { rid: r, hold: 30, phase: 0 });

    // let process 1 start immediately...
    s.schedule_event(ev(0, 1));
    // ...and process 2 at time 20, when the resource is taken; it waits
    // until 70 and then holds for 30, so the simulation ends at 100
    s.schedule_event(ev(20, 2));

    let s = s.run(EndCondition::NoEvents).unwrap();
    println!("{:?}", s.processed_events());
    assert_eq!(s.context().time(), 100);
}

#[test]
fn interruption() {
    let mut s: Simulation<TestMessage, Proc> = Simulation::new(Context::new());
    s.create_process(1, Proc::AssertInterrupted { phase: 0 });
    s.create_process(2, Proc::Interrupter { delay: 11, phase: 0 });
    s.schedule_event(ev(0, 1));
    s.schedule_event(ev(0, 2));
    for _ in 0..6 {
        s.step().unwrap();
    }
}

#[test]
fn messaging() {
    let mut s: Simulation<TestMessage, Proc> = Simulation::new(Context::new());
    s.create_process(1, Proc::WaitForMessage { phase: 0 });
    s.create_process(2, Proc::SendHello { phase: 0 });
    s.schedule_event(ev(0, 1));
    s.schedule_event(ev(0, 2));
    for _ in 0..5 {
        s.step().unwrap();
    }
}

#[test]
fn release_with_no_waiters() {
    let mut s: Simulation<TestMessage, Proc> = Simulation::new(Context::new());
    let r = s.create_resource(2);
    s.create_process(1, Proc::GrabAndRelease { rid: r, phase: 0 });
    s.schedule_event(ev(0, 1));
    let s = s.run(EndCondition::NoEvents).unwrap();
    assert_eq!(s.resource_available(r), Some(2));
    assert_eq!(s.resource_waiting(r), Some(0));
    assert_eq!(s.resource_capacity(r), Some(2));
}

#[test]
fn contended_resource_fifo() {
    let mut s: Simulation<TestMessage, Proc> = Simulation::new(Context::new());
    let r = s.create_resource(1);
    s.create_process(1, Proc::HoldResource { rid: r, hold: 10, phase: 0 });
    s.create_process(2, Proc::GrabAndRelease { rid: r, phase: 0 });
    s.create_process(3, Proc::GrabAndRelease { rid: r, phase: 0 });
    s.schedule_event(ev(0, 1));
    s.schedule_event(ev(1, 2));
    s.schedule_event(ev(2, 3));
    let s = s.run(EndCondition::NoEvents).unwrap();
    // process 2 blocked before process 3, so it is woken first; the
    // hand-off and same-instant insertions give exactly this log
    let expected = vec![
        ev(0, 1),
        ev(0, 1),
        ev(1, 2),
        ev(2, 3),
        ev(10, 1),
        ev(10, 2),
        ev(10, 1),
        ev(10, 3),
        ev(10, 2),
        ev(10, 3),
    ];
    assert_eq!(s.processed_events().as_slice(), expected.as_slice());
    assert_eq!(s.context().time(), 10);
    assert_eq!(s.resource_available(r), Some(1));
    assert_eq!(s.resource_waiting(r), Some(0));
}

#[test]
fn step_on_empty_queue_is_noop() {
    let mut s: Simulation<TestMessage, Proc> = Simulation::new(Context::new());
    assert!(s.step().is_ok());
    assert_eq!(s.time(), 0);
    assert_eq!(s.processed_events().len(), 0);
    assert_eq!(s.pending_events(), 0);
}

#[test]
fn run_for_n_steps() {
    let mut s: Simulation<TestMessage, Proc> = Simulation::new(Context::new());
    s.create_process(1, Proc::Tick { period: 7 });
    s.schedule_event(ev(0, 1));
    let s = s.run(EndCondition::NSteps(3)).unwrap();
    assert_eq!(s.processed_events().len(), 3);
    assert_eq!(s.time(), 14);
}

#[test]
fn zero_delay_timeout_steps_once() {
    let mut s: Simulation<TestMessage, Proc> = Simulation::new(Context::new());
    s.create_process(1, Proc::Tick { period: 0 });
    s.schedule_event(ev(0, 1));
    for _ in 0..3 {
        s.step().unwrap();
    }
    // each zero-delay timeout queues exactly one event: three steps,
    // three log entries, the clock pinned at zero, one event pending
    assert_eq!(s.time(), 0);
    assert_eq!(s.processed_events().len(), 3);
    assert_eq!(s.pending_events(), 1);
}

#[test]
fn past_event_is_clamped_to_the_clock() {
    let mut s: Simulation<TestMessage, Proc> = Simulation::new(Context::new());
    s.create_process(1, Proc::Tick { period: 10 });
    s.create_process(2, Proc::FinishNow);
    s.schedule_event(ev(0, 1));
    s.step().unwrap();
    s.step().unwrap();
    assert_eq!(s.time(), 10);
    // scheduling in the past is clamped: the clock may not regress
    s.schedule_event(ev(3, 2));
    s.step().unwrap();
    assert_eq!(s.time(), 10);
    assert_eq!(s.processed_events().last(), Some(&ev(10, 2)));
}

#[test]
fn relative_event_effect() {
    let mut s: Simulation<TestMessage, Proc> = Simulation::new(Context::new());
    s.create_process(1, Proc::ScheduleOther { phase: 0 });
    s.create_process(2, Proc::FinishNow);
    s.schedule_event(ev(0, 1));
    let s = s.run(EndCondition::NoEvents).unwrap();
    // the scheduled event's time is relative: process 2 ran at 0 + 5,
    // and process 1 was not resumed again
    assert_eq!(s.processed_events().as_slice(), &[ev(0, 1), ev(5, 2)]);
    assert_eq!(s.time(), 5);
}

#[test]
fn unknown_process_is_fatal() {
    let mut s: Simulation<TestMessage, Proc> = Simulation::new(Context::new());
    s.schedule_event(ev(0, 7));
    assert_eq!(s.step(), Err(SimError::UnknownProcess(7)));
}

#[test]
fn resuming_a_completed_process_is_fatal() {
    let mut s: Simulation<TestMessage, Proc> = Simulation::new(Context::new());
    s.create_process(1, Proc::FinishNow);
    s.schedule_event(ev(0, 1));
    s.step().unwrap();
    s.schedule_event(ev(1, 1));
    assert_eq!(s.step(), Err(SimError::CompletedProcess(1)));
}

#[test]
fn unknown_resource_is_fatal() {
    let mut s: Simulation<TestMessage, Proc> = Simulation::new(Context::new());
    s.create_process(1, Proc::RequestBad { phase: 0 });
    s.schedule_event(ev(0, 1));
    assert_eq!(s.step(), Err(SimError::UnknownResource(0)));
}

#[test]
fn release_over_capacity_is_fatal() {
    let mut s: Simulation<TestMessage, Proc> = Simulation::new(Context::new());
    let r = s.create_resource(1);
    s.create_process(1, Proc::ReleaseBad { rid: r, phase: 0 });
    s.schedule_event(ev(0, 1));
    assert_eq!(s.step(), Err(SimError::ReleaseOverCapacity(r)));
}

#[test]
fn interrupts_latch_until_queried() {
    let mut ctx: Context<TestMessage> = Context::new();
    ctx.interrupt(5);
    ctx.interrupt(5);
    assert!(ctx.check_interrupted(5));
    assert!(!ctx.check_interrupted(5));
    assert!(!ctx.check_interrupted(6));
}

#[test]
fn messages_pop_in_delivery_order() {
    let mut ctx: Context<TestMessage> = Context::new();
    ctx.push_message(1, TestMessage::MessageType1);
    ctx.push_message(1, TestMessage::MessageType2("second"));
    assert_eq!(ctx.pop_message(1), Some(TestMessage::MessageType1));
    assert_eq!(ctx.pop_message(1), Some(TestMessage::MessageType2("second")));
    assert_eq!(ctx.pop_message(1), None);
    assert_eq!(ctx.pop_message(2), None);
}

#[test]
fn huge_timeout_saturates() {
    let mut s: Simulation<TestMessage, Proc> = Simulation::new(Context::new());
    s.create_process(1, Proc::BigTimeout);
    s.schedule_event(ev(10, 1));
    s.step().unwrap();
    s.step().unwrap();
    assert_eq!(s.time(), u64::MAX);
}

#[test]
fn run_returns_once_quiescent() {
    let mut s: Simulation<TestMessage, Proc> = Simulation::new(Context::new());
    s.create_process(1, Proc::FinishNow);
    s.schedule_event(ev(0, 1));
    // the queue empties long before time 100; once it is empty no step
    // can change anything, so the run returns instead of spinning
    let s = s.run(EndCondition::Time(100)).unwrap();
    assert_eq!(s.pending_events(), 0);
    assert_eq!(s.time(), 0);
    assert_eq!(s.processed_events().as_slice(), &[ev(0, 1)]);
}

#[test]
fn run_reports_the_first_fatal_error() {
    let mut s: Simulation<TestMessage, Proc> = Simulation::new(Context::new());
    s.schedule_event(ev(0, 7));
    assert_eq!(
        s.run(EndCondition::NoEvents).err(),
        Some(SimError::UnknownProcess(7))
    );
}

#[test]
fn run_returns_at_once_when_condition_already_holds() {
    let mut s: Simulation<TestMessage, Proc> = Simulation::new(Context::new());
    s.create_process(1, Proc::Tick { period: 7 });
    s.schedule_event(ev(0, 1));
    // the log already has length zero, so NSteps(0) holds at entry:
    // the run must succeed without consuming anything
    let s = s.run(EndCondition::NSteps(0)).unwrap();
    assert_eq!(s.processed_events().len(), 0);
    assert_eq!(s.pending_events(), 1);
    assert_eq!(s.time(), 0);
}
