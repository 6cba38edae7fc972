use printer_core::fixed_point::Fixed16_16;
use printer_core::heater::PidController;

fn fx(v: f32) -> Fixed16_16 {
    Fixed16_16((v * 65536.0) as i32)
}

fn to_f32(v: Fixed16_16) -> f32 {
    v.0 as f32 / 65536.0
}

#[test]
fn fixed_from_to_float() {
    let f1 = 123.456;
    assert!((to_f32(fx(f1)) - f1).abs() < 0.0001);
    let f2 = -50.75;
    assert!((to_f32(fx(f2)) - f2).abs() < 0.0001);
}

#[test]
fn fixed_add_sub() {
    let a = fx(10.5);
    let b = fx(5.25);
    assert_eq!(to_f32(a.add(b)), 15.75);
    assert_eq!(to_f32(a.sub(b)), 5.25);
}

#[test]
fn fixed_mul_div() {
    let a = fx(10.5);
    let b = fx(2.0);
    assert!((to_f32(a.mul(b)) - 21.0).abs() < 0.0001);
    assert!((to_f32(a.div(b)) - 5.25).abs() < 0.0001);
}

#[test]
fn fixed_mul_fractional() {
    let a = fx(20.0);
    let b = fx(0.25);
    assert!((to_f32(a.mul(b)) - 5.0).abs() < 0.0001);
}

#[test]
fn fixed_saturates_and_divides_by_zero() {
    let max = Fixed16_16(i32::MAX);
    assert_eq!(max.add(Fixed16_16::one()).0, i32::MAX);
    assert_eq!(Fixed16_16(i32::MIN).sub(Fixed16_16::one()).0, i32::MIN);
    assert_eq!(Fixed16_16(i32::MIN).neg().0, i32::MAX);
    assert_eq!(fx(1000.0).mul(fx(1000.0)).0, i32::MAX);
    assert_eq!(fx(-1000.0).mul(fx(1000.0)).0, i32::MIN);
    assert_eq!(fx(3.0).div(Fixed16_16::zero()).0, i32::MAX);
    assert_eq!(fx(-7.0).div(fx(2.0)).0, fx(-3.5).0);
    assert_eq!(Fixed16_16(-1).div(fx(3.0)).0, 0);
    assert_eq!(Fixed16_16::from_int(-3).0, -3 * 65536);
    assert!(fx(1.0).lt(fx(2.0)));
    // The product rounds toward negative infinity (arithmetic shift).
    assert_eq!(Fixed16_16(-1).mul(Fixed16_16(1)).0, -1);
}

#[test]
fn pid_proportional_term() {
    let max_duty = 1000;
    let mut pid = PidController::new(fx(10.0), fx(0.0), fx(0.0), max_duty);
    let dt = fx(0.1);
    assert_eq!(pid.update(fx(50.0), dt), 500);
    assert_eq!(pid.update(fx(150.0), dt), max_duty);
    let output2 = pid.update(fx(5.0), dt);
    assert!((output2 as f32 - 50.0).abs() < 1.0);
}

#[test]
fn test_pid_controller_integral_term() {
    let max_duty = 1000;
    let mut pid = PidController::new(fx(0.0), fx(2.0), fx(0.0), max_duty);
    let error = fx(5.0);
    let dt = fx(1.0);
    let output1 = pid.update(error, dt);
    assert!((output1 as f32 - 10.0).abs() < 1.0);
    let output2 = pid.update(error, dt);
    assert!((output2 as f32 - 20.0).abs() < 1.0);
}

#[test]
fn test_pid_anti_windup() {
    let max_duty = 1000;
    let mut pid = PidController::new(fx(0.1), fx(50.0), fx(0.0), max_duty);
    let error = fx(10.0);
    let dt = fx(1.0);
    for _ in 0..10 {
        pid.update(error, dt);
    }
    let internal_integral = pid.integral();
    assert!((to_f32(internal_integral) - 20.0).abs() < 0.1);
}

#[test]
fn test_pid_derivative_term() {
    let max_duty = 1000;
    let mut pid = PidController::new(fx(0.0), fx(0.0), fx(3.0), max_duty);
    let dt = fx(0.5);
    pid.update(fx(2.0), dt);
    let output = pid.update(fx(1.0), dt);
    assert_eq!(output, 0);
}

#[test]
fn pid_reset_clears_state() {
    let mut pid = PidController::new(fx(0.0), fx(1.0), fx(0.0), 100);
    pid.update(fx(4.0), fx(1.0));
    assert_eq!(pid.integral().0, fx(4.0).0);
    pid.reset();
    assert_eq!(pid.integral().0, 0);
    assert_eq!(pid.update(fx(0.0), fx(1.0)), 0);
}

#[test]
fn pid_full_duty_range() {
    let mut pid = PidController::new(fx(1.0), fx(0.0), fx(0.0), 65535);
    assert_eq!(pid.update(fx(30000.0), fx(1.0)), 30000);
    // The output bound saturates at the largest Q16.16 value.
    assert_eq!(pid.update(Fixed16_16(i32::MAX), fx(1.0)), 32767);
}
