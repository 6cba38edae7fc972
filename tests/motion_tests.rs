use printer_core::motion::{bresenham_step, expand_steps, move_delta, step_interval, MoveDelta, PlannerError};
use printer_core::planner::{JunctionSolver, MotionQueues};
use printer_core::stepper::{StepCommand, StepQueue, StepperController};

fn run_to_completion(cmds: &[StepCommand], steppers: usize) -> StepperController {
    let mut queue = StepQueue::new();
    let mut ctrl = StepperController::new(steppers);
    let mut i = 0;
    loop {
        while i < cmds.len() && queue.enqueue(cmds[i]).is_ok() {
            i += 1;
        }
        if ctrl.next_command().is_none() {
            if queue.is_empty() {
                break;
            }
            ctrl.prime(&mut queue);
        }
        let out = ctrl.interrupt(&mut queue);
        if out.stop && i >= cmds.len() {
            assert!(queue.is_empty());
            break;
        }
    }
    ctrl
}

#[test]
fn straight_hundred_step_x_move() {
    let current = [0i32; 8];
    let mut target = [0i32; 8];
    target[0] = 100;
    let d = move_delta(&current, &target);
    assert_eq!(d.total_steps, 100);
    assert_eq!(d.direction_mask, 0b0001);
    let raw: Vec<u64> = (0..100).map(|n| 1000 + n).collect();
    let cmds = expand_steps(&d, &raw);
    assert_eq!(cmds.len(), 100);
    for c in &cmds {
        assert_eq!(c.stepper_mask, 0b0001);
        assert_eq!(c.direction_mask, 0b0001);
    }
    let ctrl = run_to_completion(&cmds, 8);
    assert_eq!(ctrl.get_position(0), Some(100));
    for i in 1..8 {
        assert_eq!(ctrl.get_position(i), Some(0));
    }
}

#[test]
fn test_full_move_pipeline_two_axes() {
    let mut current = [0i32; 8];
    current[1] = 100;
    let mut target = [0i32; 8];
    target[0] = 100;
    target[1] = 50;
    let d = move_delta(&current, &target);
    assert_eq!(d.steps[0], 100);
    assert_eq!(d.steps[1], -50);
    assert_eq!(d.total_steps, 100);
    assert_eq!(d.direction_mask, 0b0001);
    let cmds = expand_steps(&d, &vec![500u64; 100]);
    let ctrl = run_to_completion(&cmds, 2);
    assert_eq!(ctrl.get_position(0), Some(100));
    assert_eq!(ctrl.get_position(1), Some(-50));
    assert_eq!(ctrl.get_position(2), None);
}

#[test]
fn diagonal_move_with_negative_and_extruder_axes() {
    let current = [10i32, 10, 10, 0, 0, 0, 0, 0];
    let target = [-790i32, 810, 10, 400, 0, 0, 0, 3];
    let d = move_delta(&current, &target);
    assert_eq!(d.total_steps, 800);
    assert_eq!(d.direction_mask, 0b1000_1010);
    let cmds = expand_steps(&d, &vec![0u64; 800]);
    assert!(cmds.iter().all(|c| c.interval_ticks == 1));
    assert!(cmds.iter().all(|c| c.stepper_mask & 0b1000 == 0));
    let mut net = [0i64; 8];
    for c in &cmds {
        for i in 0..8 {
            if (c.stepper_mask >> i) & 1 == 1 {
                net[i] += if (c.direction_mask >> i) & 1 == 1 { 1 } else { -1 };
            }
        }
    }
    assert_eq!(net, [-800, 800, 0, 0, 0, 0, 0, 3]);
}

#[test]
fn bresenham_distributes_evenly() {
    let mut steps = [0i32; 8];
    steps[0] = 4;
    steps[1] = 1;
    let mut errors = [0i64; 8];
    let masks: Vec<u8> = (0..4).map(|_| bresenham_step(&mut errors, &steps, 4)).collect();
    assert_eq!(masks, vec![0b01, 0b11, 0b01, 0b01]);
}

#[test]
fn move_delta_wraps() {
    let mut current = [0i32; 8];
    current[2] = i32::MIN;
    let mut target = [0i32; 8];
    target[2] = i32::MAX;
    let d: MoveDelta = move_delta(&current, &target);
    assert_eq!(d.steps[2], -1);
    assert_eq!(d.total_steps, 1);
    assert_eq!(d.direction_mask, 0);
}

#[test]
fn zero_velocity_saturates_intervals() {
    assert_eq!(step_interval(u64::MAX), u16::MAX);
    assert_eq!(step_interval(70_000), u16::MAX);
    assert_eq!(step_interval(0), 1);
    assert_eq!(step_interval(12_500), 12_500);
}

#[test]
fn empty_move_expands_to_nothing() {
    let p = [5i32; 8];
    let d = move_delta(&p, &p);
    assert_eq!(d.total_steps, 0);
    assert!(expand_steps(&d, &vec![]).is_empty());
}

struct CountingSolver;

impl JunctionSolver<u32> for CountingSolver {
    fn join(&self, _d1: &MoveDelta, first: &mut u32, _d2: &MoveDelta, second: &mut u32) {
        *first += 1000;
        *second += 1;
    }
    fn finish(&self, _d: &MoveDelta, last: &mut u32) {
        *last += 2000;
    }
}

/// A move along X by `i` steps, carrying `i` as its profile.
fn x_move(i: u32) -> MoveDelta {
    let mut target = [0i32; 8];
    target[0] = i as i32;
    move_delta(&[0i32; 8], &target)
}

#[test]
fn test_queue_full_error() {
    let mut q: MotionQueues<u32> = MotionQueues::new();
    for i in 1..=100u32 {
        let result = q.plan(x_move(i), i, &CountingSolver);
        if i > 64 + 8 {
            assert_eq!(result, Err(PlannerError::QueueFull));
        } else {
            assert!(result.is_ok());
        }
    }
    assert_eq!(q.lookahead_count(), 8);
    assert_eq!(q.move_count(), 64);
}

#[test]
fn finalize_drains_lookahead_in_order() {
    let mut q: MotionQueues<u32> = MotionQueues::new();
    q.plan(x_move(1), 1, &CountingSolver).unwrap();
    q.plan(x_move(2), 2, &CountingSolver).unwrap();
    q.plan(x_move(3), 3, &CountingSolver).unwrap();
    assert_eq!(q.lookahead_count(), 1);
    assert_eq!(q.move_count(), 2);
    assert_eq!(q.finalize(&CountingSolver), Ok(()));
    assert_eq!(q.lookahead_count(), 0);
    assert_eq!(q.next_move().map(|m| m.profile), Some(1001));
    assert_eq!(q.next_move().map(|m| m.profile), Some(1003));
    assert_eq!(q.next_move().map(|m| m.profile), Some(2004));
    assert!(q.next_move().is_none());
}

#[test]
fn finalize_reports_full_move_queue() {
    let mut q: MotionQueues<u32> = MotionQueues::new();
    for i in 0..72u32 {
        q.plan(x_move(i), i, &CountingSolver).unwrap();
    }
    assert_eq!(q.finalize(&CountingSolver), Err(PlannerError::QueueFull));
    assert_eq!(q.lookahead_count() + q.move_count(), 72);
    q.next_move();
    assert_eq!(q.plan(x_move(99), 99, &CountingSolver), Err(PlannerError::QueueFull));
    assert_eq!(q.finalize(&CountingSolver), Err(PlannerError::QueueFull));
    assert_eq!(q.lookahead_count(), 7);
    assert_eq!(q.plan(x_move(99), 99, &CountingSolver), Ok(()));
}

#[test]
fn refused_plan_leaves_queues_unchanged() {
    let mut q: MotionQueues<u32> = MotionQueues::new();
    for i in 0..72u32 {
        q.plan(x_move(i), i, &CountingSolver).unwrap();
    }
    assert_eq!(q.plan(x_move(500), 500, &CountingSolver), Err(PlannerError::QueueFull));
    // Finalised moves come out in planning order, the refused one nowhere.
    for i in 0..64u32 {
        assert_eq!(q.next_move().map(|m| m.profile % 1000), Some(i + if i == 0 { 0 } else { 1 }));
    }
    assert!(q.next_move().is_none());
}

#[test]
fn finalised_moves_keep_their_deltas_in_order() {
    let mut q: MotionQueues<u32> = MotionQueues::new();
    q.plan(x_move(100), 7, &CountingSolver).unwrap();
    assert_eq!(q.finalize(&CountingSolver), Ok(()));
    let m = q.next_move().unwrap();
    assert_eq!(m.delta.total_steps, 100);
    assert_eq!(m.delta.steps, [100, 0, 0, 0, 0, 0, 0, 0]);
    assert_eq!(m.delta.direction_mask, 0b0001);
    assert_eq!(m.profile, 2007);
    for i in 1..=5u32 {
        q.plan(x_move(i), i, &CountingSolver).unwrap();
    }
    q.finalize(&CountingSolver).unwrap();
    for i in 1..=5u32 {
        assert_eq!(q.next_move().unwrap().delta.steps[0], i as i32);
    }
}
