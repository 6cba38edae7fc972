use printer_core::fixed_point::Fixed16_16;
use printer_core::heater::PidController;
use printer_core::safety::{heater_duty, SafetyError, SafetyMonitor, ThermalMonitor};

fn fx(v: f32) -> Fixed16_16 {
    Fixed16_16((v * 65536.0) as i32)
}

fn to_f32(v: Fixed16_16) -> f32 {
    v.0 as f32 / 65536.0
}

const SECOND: u64 = 1_000_000;

fn create_test_monitor() -> ThermalMonitor {
    ThermalMonitor::new(fx(5.0), fx(-50.0), fx(300.0), fx(25.0))
}

#[test]
fn test_thermal_runaway_detection() {
    let mut monitor = create_test_monitor();
    let mut now = 5 * SECOND;
    monitor.check(0, fx(25.0), now).unwrap();
    now += SECOND;
    let result = monitor.check(0, fx(25.0 + 6.0), now);
    match result {
        Err(SafetyError::ThermalRunaway { heater_id, rate_of_change }) => {
            assert_eq!(heater_id, 0);
            assert!((to_f32(rate_of_change) - 6.0).abs() < 0.01, "Rate was {}", to_f32(rate_of_change));
        }
        _ => panic!("Expected ThermalRunaway error, got {:?}", result),
    }
}

#[test]
fn test_thermal_runaway_is_not_triggered_on_normal_heating() {
    let mut monitor = create_test_monitor();
    let mut now = 0;
    monitor.check(0, fx(25.0), now).unwrap();
    now += SECOND;
    let temp = 25.0 + 2.0;
    assert!(monitor.check(0, fx(temp), now).is_ok());
    now += SECOND;
    assert!(monitor.check(0, fx(temp + 2.0), now).is_ok());
}

#[test]
fn test_sensor_failure_too_high() {
    let mut monitor = create_test_monitor();
    let result = monitor.check(1, fx(301.0), 0);
    match result {
        Err(SafetyError::TempTooHigh { heater_id, temp }) => {
            assert_eq!(heater_id, 1);
            assert_eq!(to_f32(temp), 301.0);
        }
        _ => panic!("Expected TempTooHigh error, got {:?}", result),
    }
}

#[test]
fn test_sensor_failure_too_low() {
    let mut monitor = create_test_monitor();
    let result = monitor.check(0, fx(-51.0), 0);
    match result {
        Err(SafetyError::TempTooLow { heater_id, temp }) => {
            assert_eq!(heater_id, 0);
            assert_eq!(to_f32(temp), -51.0);
        }
        _ => panic!("Expected TempTooLow error, got {:?}", result),
    }
}

#[test]
fn test_short_interval_does_not_trigger_runaway() {
    let mut monitor = create_test_monitor();
    let mut now = 0;
    monitor.check(0, fx(25.0), now).unwrap();
    now += 50_000;
    assert!(monitor.check(0, fx(25.0 + 3.0), now).is_ok());
}

#[test]
fn thermal_runaway_stops_everything() {
    let mut safety = SafetyMonitor::new(vec![create_test_monitor()], vec![], 0);
    safety.check_thermal_state(0, fx(25.0), 0);
    assert!(!safety.is_emergency_stop_active());
    safety.check_thermal_state(0, fx(31.0), SECOND);
    assert!(safety.is_emergency_stop_active());
    match safety.emergency_stop_reason() {
        Some(SafetyError::ThermalRunaway { heater_id: 0, rate_of_change }) => {
            assert!((to_f32(rate_of_change) - 6.0).abs() < 0.01);
        }
        other => panic!("unexpected reason {:?}", other),
    }
    let mut pid = PidController::new(fx(10.0), fx(0.1), fx(8.0), 1000);
    for target in [0.0, 50.0, 200.0, 250.0] {
        assert_eq!(heater_duty(&safety, &mut pid, fx(target), fx(31.0), fx(0.1)), 0);
    }
    // Nothing clears it; the first reason stays.
    safety.check_stepper_faults(0b10);
    safety.check_thermal_state(0, fx(30.0), 3 * SECOND);
    assert!(safety.is_emergency_stop_active());
    assert!(matches!(safety.emergency_stop_reason(), Some(SafetyError::ThermalRunaway { .. })));
}

#[test]
fn heater_duty_runs_the_controller_when_safe() {
    let safety = SafetyMonitor::new(vec![create_test_monitor()], vec![], 0);
    let mut pid = PidController::new(fx(10.0), fx(0.0), fx(0.0), 1000);
    assert_eq!(heater_duty(&safety, &mut pid, fx(60.0), fx(55.0), fx(0.1)), 50);
    assert_eq!(heater_duty(&safety, &mut pid, fx(0.0), fx(55.0), fx(0.1)), 0);
}

#[test]
fn stepper_fault_and_task_stall() {
    let mut s = SafetyMonitor::new(vec![], vec![1000, 5000], 0);
    s.check_stepper_faults(0);
    assert!(!s.is_emergency_stop_active());
    s.task_check_in(0, 4500);
    s.task_check_in(7, 4000);
    s.check_task_stalls(5000);
    assert!(!s.is_emergency_stop_active());
    s.check_task_stalls(5001);
    assert_eq!(s.emergency_stop_reason(), Some(SafetyError::TaskStalled { task_id: 1 }));
    let mut t = SafetyMonitor::new(vec![], vec![], 0);
    t.check_stepper_faults(0b100);
    assert_eq!(t.emergency_stop_reason(), Some(SafetyError::StepperDriverFault { driver_mask: 0b100 }));
}

#[test]
fn unknown_heater_is_ignored_and_rejected_reading_keeps_state() {
    let mut s = SafetyMonitor::new(vec![create_test_monitor()], vec![], 0);
    s.check_thermal_state(3, fx(1000.0), 0);
    assert!(!s.is_emergency_stop_active());
    let mut m = create_test_monitor();
    assert!(m.check(0, fx(400.0), 10).is_err());
    assert_eq!(m, create_test_monitor());
    m.check(0, fx(26.0), 10).unwrap();
    assert_eq!(m.last_check_us, Some(10));
    assert_eq!(m.last_temp, fx(26.0));
}
