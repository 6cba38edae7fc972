use printer_core::shaping::{events_to_commands, nominal_steps, schedule_shaped};
use printer_core::stepper::{
    enqueue_from, AtomicGpioPort, IsrOutput, StepCommand, StepQueue, StepperController, Timer, TimerAction,
    QUEUE_CAPACITY,
};

#[test]
fn queue_is_fifo_and_bounded() {
    let mut q = StepQueue::new();
    assert!(q.is_empty());
    assert_eq!(q.dequeue(), None);
    for i in 0..QUEUE_CAPACITY {
        assert!(q.enqueue(StepCommand::new(1, 0, i as u16)).is_ok());
    }
    let extra = StepCommand::new(2, 2, 7);
    assert_eq!(q.enqueue(extra), Err(extra));
    assert_eq!(q.len(), QUEUE_CAPACITY);
    for i in 0..10 {
        assert_eq!(q.dequeue(), Some(StepCommand::new(1, 0, i as u16)));
    }
    for i in 0..10 {
        assert!(q.enqueue(StepCommand::new(3, 0, 1000 + i)).is_ok());
    }
    for i in 10..QUEUE_CAPACITY {
        assert_eq!(q.dequeue(), Some(StepCommand::new(1, 0, i as u16)));
    }
    for i in 0..10 {
        assert_eq!(q.dequeue(), Some(StepCommand::new(3, 0, 1000 + i)));
    }
    assert_eq!(q.dequeue(), None);
}

#[derive(Default)]
struct MockPort {
    state: u8,
    set_clear_calls: u32,
    write_calls: u32,
}

impl AtomicGpioPort for MockPort {
    fn set_and_clear_atomic(&mut self, set_mask: u8, clear_mask: u8) {
        self.state |= set_mask;
        self.state &= !clear_mask;
        self.set_clear_calls += 1;
    }
    fn write(&mut self, mask: u8) {
        self.state = mask;
        self.write_calls += 1;
    }
}

#[derive(Default)]
struct MockTimer {
    scheduled_ticks: u16,
    triggered_now: bool,
    stopped: bool,
}

impl Timer for MockTimer {
    fn schedule_next(&mut self, ticks: u16) {
        self.scheduled_ticks = ticks;
        self.triggered_now = false;
        self.stopped = false;
    }
    fn trigger_now(&mut self) {
        self.triggered_now = true;
        self.stopped = false;
    }
    fn stop(&mut self) {
        self.stopped = true;
    }
}

#[test]
fn test_pipelined_execution_flow() {
    let mut queue = StepQueue::new();
    let mut controller = StepperController::new(4);
    let mut step_port = MockPort::default();
    let mut dir_port = MockPort::default();
    let mut timer = MockTimer::default();
    let cmd1 = StepCommand::new(0b0001, 0b0001, 1000);
    let cmd2 = StepCommand::new(0b0010, 0b0000, 500);
    queue.enqueue(cmd1).unwrap();
    queue.enqueue(cmd2).unwrap();

    assert_eq!(controller.start(&mut queue, &mut dir_port, &mut timer), (Some(0b0001), Some(1000)));
    assert_eq!(controller.next_command(), Some(cmd1));
    assert_eq!(dir_port.state, 0b0001);
    assert_eq!(timer.scheduled_ticks, 1000);
    assert_eq!(controller.get_position(0), Some(0));

    controller.on_timer_interrupt(&mut queue, &mut step_port, &mut dir_port, &mut timer);
    assert_eq!(controller.get_position(0), Some(1));
    assert_eq!(controller.get_position(1), Some(0));
    assert_eq!(step_port.set_clear_calls, 1);
    assert_eq!(controller.next_command(), Some(cmd2));
    assert_eq!(dir_port.state, 0b0000);
    assert_eq!(timer.scheduled_ticks, 1000);

    controller.on_timer_interrupt(&mut queue, &mut step_port, &mut dir_port, &mut timer);
    assert_eq!(controller.get_position(0), Some(1));
    assert_eq!(controller.get_position(1), Some(-1));
    assert!(controller.next_command().is_none());
    assert_eq!(timer.scheduled_ticks, 500);
    assert!(timer.stopped);
    assert_eq!(dir_port.write_calls, 2);
}

#[test]
fn empty_queue_stops_timer_within_one_interrupt() {
    let mut queue = StepQueue::new();
    let mut controller = StepperController::new(2);
    let out = controller.interrupt(&mut queue);
    assert_eq!(out, IsrOutput { pulse: None, reschedule: None, direction_write: None, stop: true });
    queue.enqueue(StepCommand::new(0b11, 0b01, 0)).unwrap();
    assert_eq!(controller.prime(&mut queue), (Some(0b01), Some(100)));
    let out = controller.interrupt(&mut queue);
    assert_eq!(out.pulse, Some(0b11));
    assert_eq!(out.reschedule, Some(TimerAction::TriggerNow));
    assert!(out.stop);
    assert_eq!(controller.get_position(0), Some(1));
    assert_eq!(controller.get_position(1), Some(-1));
}

#[test]
fn backward_step_decrements_position() {
    let mut queue = StepQueue::new();
    let mut controller = StepperController::new(1);
    queue.enqueue(StepCommand::new(1, 0, 5)).unwrap();
    controller.prime(&mut queue);
    controller.interrupt(&mut queue);
    assert_eq!(controller.get_position(0), Some(-1));
    assert_eq!(controller.prime(&mut queue), (None, None));
}

#[test]
fn shaped_zv_events_double_and_keep_half_period() {
    let clock_hz: u64 = 100_000_000;
    let half_period = (clock_hz / 40 / 2) as u32;
    let nominal: Vec<(u32, u8)> = (1..=800u32).map(|n| (n * 12_500, 0b0001)).collect();
    let offsets = vec![0u32, half_period];
    let events = schedule_shaped(&nominal, &offsets).unwrap();
    assert_eq!(events.len(), 2 * nominal.len());
    assert!(events.windows(2).all(|w| w[0].0 <= w[1].0));
    for &(t, _) in &nominal {
        assert!(events.iter().any(|e| e.0 == t));
        assert!(events.iter().any(|e| e.0 == t + half_period));
    }
    let cmds = events_to_commands(&events, 0b0001);
    assert_eq!(cmds.len(), 1600);
    let mut time = 0u64;
    let mut times = Vec::new();
    for c in &cmds {
        time += c.interval_ticks as u64;
        times.push(time);
    }
    assert_eq!(times[0], 12_500);
    assert!(times.contains(&(12_500 + half_period as u64)));
}

#[test]
fn shaped_events_beyond_capacity_are_refused() {
    let nominal: Vec<(u32, u8)> = (0..1025u32).map(|n| (n * 10, 1)).collect();
    assert!(schedule_shaped(&nominal, &vec![0, 5]).is_none());
    let fits: Vec<(u32, u8)> = (0..1024u32).map(|n| (n * 10, 1)).collect();
    let events = schedule_shaped(&fits, &vec![0, 5]).unwrap();
    assert_eq!(events.len(), 2048);
    assert_eq!(&events[..4], &[(0, 1), (5, 1), (10, 1), (15, 1)]);
    assert_eq!(schedule_shaped(&vec![], &vec![1, 2]), Some(vec![]));
}

#[test]
fn shaped_intervals_saturate() {
    let events = vec![(10u32, 1u8), (10, 2), (100_000, 1)];
    let cmds = events_to_commands(&events, 0);
    assert_eq!(cmds.iter().map(|c| c.interval_ticks).collect::<Vec<_>>(), vec![10, 1, u16::MAX]);
    assert_eq!(cmds[1].stepper_mask, 2);
}

#[test]
fn enqueue_from_fills_up_to_capacity() {
    let mut q = StepQueue::new();
    let cmds: Vec<StepCommand> = (0..300u16).map(|i| StepCommand::new(1, 0, i)).collect();
    assert_eq!(enqueue_from(&mut q, &cmds, 10), QUEUE_CAPACITY);
    assert_eq!(q.dequeue(), Some(StepCommand::new(1, 0, 10)));
    assert_eq!(enqueue_from(&mut q, &cmds, 10 + QUEUE_CAPACITY), 1);
    assert_eq!(enqueue_from(&mut q, &cmds, 300), 0);
    let mut last = None;
    while let Some(c) = q.dequeue() {
        last = Some(c);
    }
    assert_eq!(last, Some(StepCommand::new(1, 0, 266)));
}

#[test]
fn nominal_steps_accumulate_and_saturate() {
    let cmds = vec![StepCommand::new(1, 0, 10), StepCommand::new(2, 0, 0), StepCommand::new(3, 0, 65535)];
    assert_eq!(nominal_steps(&cmds), vec![(10, 1), (10, 2), (65545, 3)]);
    let many = vec![StepCommand::new(1, 0, 65535); 70_000];
    assert_eq!(nominal_steps(&many).last(), Some(&(u32::MAX, 1)));
}

#[test]
fn start_on_empty_queue_schedules_nothing() {
    let mut queue = StepQueue::new();
    let mut controller = StepperController::new(1);
    let mut dir = MockPort::default();
    let mut timer = MockTimer::default();
    assert_eq!(controller.start(&mut queue, &mut dir, &mut timer), (None, None));
    assert_eq!(timer.scheduled_ticks, 0);
    assert_eq!(dir.write_calls, 0);
}
