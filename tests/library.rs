use clevo_fan::codec::{Duty, ParsePercentageError, Registers, Speed, Temperature, EC_REG_SIZE};
use clevo_fan::control::ControlLoop;
use clevo_fan::ec::{
    set_duty_handshake, Handshake, PortAction, PortIOError, StatusWait, WaitStep, MAX_QUERIES,
};
use clevo_fan::filter::{
    smooth_by_average, smooth_by_median, MovingAverage, MovingAverageIteratorExt, MovingMedian,
    MovingMedianIteratorExt,
};
use clevo_fan::policy::{ExponentialBase, FanPolicy, InvalidExponentialBase, Linear, Quadratic};

fn temps(degrees: &[u8]) -> Vec<Temperature> {
    degrees.iter().map(|d| Temperature::from_degrees_celsius(*d)).collect()
}

fn decidegrees(ts: &[Temperature]) -> Vec<u32> {
    ts.iter().map(|t| t.decidegrees).collect()
}

#[test]
fn duty_byte_round_trip_loses_at_most_one() {
    for b in 0..=255u8 {
        let p = Duty::from_point_in_range(b, 0, 255).to_point_in_range(0, 255);
        assert!(p <= b && b - p <= 1, "byte {} came back as {}", b, p);
    }
    assert_eq!(Duty::from_point_in_range(255, 0, 255).to_point_in_range(0, 255), 255);
    assert_eq!(Duty::from_point_in_range(1, 0, 255).to_point_in_range(0, 255), 0);
}

#[test]
fn decode_cpu_temperature_display() {
    let mut block = vec![0u8; EC_REG_SIZE];
    block[0x07] = 45;
    let regs = Registers::from_block(&block);
    assert_eq!(regs.cpu_temp.to_display_string(false), "45.0°C");
    assert_eq!(regs.cpu_temp.to_display_string(true), "45.0");
    assert_eq!(regs.cpu_temp.as_degrees_celsius(), 45);
}

#[test]
fn decode_full_block() {
    let mut block = vec![0u8; EC_REG_SIZE];
    block[0x07] = 61;
    block[0xCD] = 55;
    block[0xCE] = 128;
    block[0xD0] = 0x08;
    block[0xD1] = 0x6C;
    let regs = Registers::from_block(&block);
    assert_eq!(regs.cpu_temp.decidegrees, 610);
    assert_eq!(regs.gpu_temp.decidegrees, 550);
    assert_eq!(regs.fan_duty.as_percentage(), 5020);
    assert_eq!(regs.fan_duty.to_display_string(false), "50.20%");
    assert_eq!(regs.fan_duty.to_display_string(true), "50.20");
    assert_eq!(regs.fan_speed.rpm, 1000);
    assert_eq!(regs.fan_speed.to_display_string(false), "1000 RPM");
    assert_eq!(regs.fan_speed.to_display_string(true), "1000");
}

#[test]
fn speed_formula() {
    assert_eq!(Speed::from_raw_ec_bytes(0x00, 0x00).rpm, 0);
    assert_eq!(Speed::from_raw_ec_bytes(0x6C, 0x08).rpm, 1000);
    assert_eq!(Speed::from_raw_ec_bytes(0x01, 0x00).rpm, 2156220);
    assert_eq!(Speed::from_raw_ec_bytes(0xFF, 0xFF).rpm, 2156220 / 65535);
}

#[test]
fn moving_average_window_two() {
    let out = smooth_by_average(&temps(&[10, 20, 30]), 2);
    assert_eq!(decidegrees(&out), vec![100, 150, 250]);
    let out = temps(&[10, 20, 30]).moving_average(2);
    assert_eq!(decidegrees(&out), vec![100, 150, 250]);
}

#[test]
fn moving_average_truncates_to_tenths() {
    let mut f = MovingAverage::new(3);
    assert_eq!(f.next(Temperature::from_degrees_celsius(10)).decidegrees, 100);
    assert_eq!(f.next(Temperature::from_degrees_celsius(20)).decidegrees, 150);
    assert_eq!(f.next(Temperature::from_degrees_celsius(25)).decidegrees, 183);
    assert_eq!(f.next(Temperature::from_degrees_celsius(0)).decidegrees, 150);
}

#[test]
fn moving_median_window_three() {
    let out = smooth_by_median(&temps(&[10, 50, 20, 40]), 3);
    assert_eq!(decidegrees(&out), vec![100, 500, 200, 400]);
    let out = temps(&[10, 50, 20, 40]).moving_median(3);
    assert_eq!(decidegrees(&out), vec![100, 500, 200, 400]);
}

#[test]
fn moving_median_ignores_spike() {
    let mut f = MovingMedian::new(3);
    f.next(Temperature::from_degrees_celsius(40));
    f.next(Temperature::from_degrees_celsius(41));
    assert_eq!(f.next(Temperature::from_degrees_celsius(99)).decidegrees, 410);
    assert_eq!(f.next(Temperature::max()).decidegrees, 990);
}

#[test]
fn linear_policy_saturates() {
    let p = Linear::default();
    assert_eq!(p.next_fan_duty(Temperature::from_degrees_celsius(50)).as_percentage(), 5000);
    assert_eq!(p.next_fan_duty(Temperature::from_degrees_celsius(150)).as_percentage(), 10000);
    let below = Linear { slope: 1_000_000, offset: -100_000_000 };
    assert_eq!(below.duty_for(Temperature::from_degrees_celsius(50)).as_percentage(), 0);
    let p = Linear { slope: 1_000_000, offset: 0 };
    assert_eq!(p.duty_for(Temperature::max()).as_percentage(), 10000);
}

#[test]
fn quadratic_policy() {
    let p = Quadratic { factor: 10_000 };
    assert_eq!(p.next_fan_duty(Temperature::from_degrees_celsius(50)).as_percentage(), 2500);
    assert_eq!(p.next_fan_duty(Temperature::from_degrees_celsius(120)).as_percentage(), 10000);
    let q = Quadratic { factor: -10_000 };
    assert_eq!(q.duty_for(Temperature::from_degrees_celsius(50)).as_percentage(), 0);
}

#[test]
fn exponential_base_names() {
    assert_eq!(ExponentialBase::from_str("e"), Ok(ExponentialBase::Euler));
    assert_eq!(ExponentialBase::from_str("euler"), Ok(ExponentialBase::Euler));
    assert_eq!(ExponentialBase::from_str("2"), Ok(ExponentialBase::Binary));
    assert_eq!(ExponentialBase::from_str("bin"), Ok(ExponentialBase::Binary));
    assert_eq!(ExponentialBase::from_str("binary"), Ok(ExponentialBase::Binary));
    assert_eq!(
        ExponentialBase::from_str("ten"),
        Err(InvalidExponentialBase("ten".to_string()))
    );
    assert_eq!(ExponentialBase::from_str(""), Err(InvalidExponentialBase(String::new())));
}

#[test]
fn percentage_bounds() {
    assert_eq!(Duty::from_percentage(10001), Err(ParsePercentageError::TooBig));
    assert_eq!(Duty::from_percentage(-1), Err(ParsePercentageError::Negative));
    assert_eq!(Duty::from_percentage(3700).unwrap().as_percentage(), 3700);
    assert_eq!(Duty::from_saturating_percentage(20000).as_percentage(), 10000);
    assert_eq!(Duty::from_saturating_percentage(-5).as_percentage(), 0);
    assert_eq!(Duty::min().as_percentage(), 0);
}

#[test]
fn percentage_strings() {
    assert_eq!(Duty::from_percentage_str("42.5").unwrap().as_percentage(), 4250);
    assert_eq!(Duty::from_percentage_str("100").unwrap().as_percentage(), 10000);
    assert_eq!(Duty::from_percentage_str("+7").unwrap().as_percentage(), 700);
    assert_eq!(Duty::from_percentage_str("-0").unwrap().as_percentage(), 0);
    assert_eq!(Duty::from_percentage_str("12.345").unwrap().as_percentage(), 1234);
    assert_eq!(Duty::from_percentage_str(".5").unwrap().as_percentage(), 50);
    assert_eq!(Duty::from_percentage_str("100.001"), Err(ParsePercentageError::TooBig));
    assert_eq!(Duty::from_percentage_str("250"), Err(ParsePercentageError::TooBig));
    assert_eq!(Duty::from_percentage_str("-0.5"), Err(ParsePercentageError::Negative));
    assert_eq!(Duty::from_percentage_str("abc"), Err(ParsePercentageError::Malformed));
    assert_eq!(Duty::from_percentage_str(""), Err(ParsePercentageError::Malformed));
    assert_eq!(Duty::from_percentage_str("1.2.3"), Err(ParsePercentageError::Malformed));
    assert_eq!(Duty::from_percentage_str("-"), Err(ParsePercentageError::Malformed));
}

fn run_handshake(mut h: Handshake, status: u8, max_steps: usize) -> (Vec<PortAction>, Option<Result<(), PortIOError>>) {
    let mut actions = Vec::new();
    for _ in 0..max_steps {
        let a = h.action();
        actions.push(a);
        match a {
            PortAction::ReadStatus => h.on_status(status),
            PortAction::WriteCommand(_) | PortAction::WriteData(_) => h.on_written(),
            PortAction::Finished => break,
        }
    }
    (actions, h.outcome())
}

#[test]
fn handshake_sends_bytes_in_order() {
    let h = set_duty_handshake(Duty::from_percentage(5000).unwrap());
    let (actions, outcome) = run_handshake(h, 0x00, 100);
    assert_eq!(
        actions,
        vec![
            PortAction::ReadStatus,
            PortAction::WriteCommand(0x99),
            PortAction::ReadStatus,
            PortAction::WriteData(0x01),
            PortAction::ReadStatus,
            PortAction::WriteData(127),
            PortAction::ReadStatus,
            PortAction::Finished,
        ]
    );
    assert_eq!(outcome, Some(Ok(())));
}

#[test]
fn handshake_times_out_after_max_queries() {
    let mut h = Handshake::new(0x99, 0x01, 0x80);
    for _ in 0..MAX_QUERIES - 1 {
        assert_eq!(h.action(), PortAction::ReadStatus);
        h.on_status(0x02);
    }
    assert_eq!(h.outcome(), None);
    h.on_status(0x02);
    assert_eq!(h.outcome(), Some(Err(PortIOError)));
    assert_eq!(h.action(), PortAction::Finished);
    assert_eq!(PortIOError.to_display_string(), "Error doing Port I/O");
}

#[test]
fn handshake_ignores_other_status_bits() {
    let (_, outcome) = run_handshake(Handshake::new(1, 2, 3), 0xFD, 1000);
    assert_eq!(outcome, Some(Ok(())));
}

#[test]
fn failed_read_is_contained() {
    let mut l = ControlLoop::raw();
    assert_eq!(l.next_temperature(None), Temperature::max());
    assert_eq!(l.next_temperature(Some(40)).decidegrees, 400);

    let mut l = ControlLoop::with_moving_median(3);
    assert_eq!(l.next_temperature(Some(40)).decidegrees, 400);
    assert_eq!(l.next_temperature(None), Temperature::max());
    assert_eq!(l.next_temperature(Some(42)).decidegrees, 420);

    let mut l = ControlLoop::with_moving_average(1);
    assert_eq!(l.next_temperature(None).as_degrees_celsius(), 255);
    assert_eq!(l.next_temperature(Some(42)).decidegrees, 420);
}

#[test]
fn temperature_bounds() {
    assert_eq!(Temperature::max().as_degrees_celsius(), 255);
    assert_eq!(Temperature { decidegrees: 459 }.as_degrees_celsius(), 45);
    assert_eq!(Temperature { decidegrees: 5 }.to_display_string(false), "0.5°C");
}

#[test]
fn registers_text() {
    let mut block = vec![0u8; EC_REG_SIZE];
    block[0x07] = 61;
    block[0xCD] = 55;
    block[0xCE] = 128;
    block[0xD0] = 0x08;
    block[0xD1] = 0x6C;
    let regs = Registers::from_block(&block);
    assert_eq!(
        regs.to_display_string(),
        "CPU Temp: 61.0°C\nGPU Temp: 55.0°C\nFan Duty: 50.20%\nFan Speed: 1000 RPM"
    );
}

#[test]
fn status_wait_times_out_for_any_bit() {
    let mut w = StatusWait::new(3, 1);
    for _ in 0..MAX_QUERIES - 1 {
        assert_eq!(w.on_status(0xF7), WaitStep::Pending);
    }
    assert_eq!(w.on_status(0xF7), WaitStep::TimedOut);
}

#[test]
fn status_wait_matches_awaited_value() {
    let mut w = StatusWait::new(3, 1);
    assert_eq!(w.on_status(0x00), WaitStep::Pending);
    assert_eq!(w.on_status(0x00), WaitStep::Pending);
    assert_eq!(w.on_status(0x08), WaitStep::Matched);
    let mut z = StatusWait::new(0, 0);
    assert_eq!(z.on_status(0xFE), WaitStep::Matched);
}

#[test]
fn fine_policy_parameters() {
    let q = Quadratic { factor: 12_000 };
    assert_eq!(q.duty_for(Temperature::from_degrees_celsius(90)).as_percentage(), 9720);
    let l = Linear { slope: 1_500_000, offset: 0 };
    assert_eq!(l.duty_for(Temperature::from_degrees_celsius(33)).as_percentage(), 4950);
    let one = Quadratic { factor: 1_000_000 };
    assert_eq!(one.next_fan_duty(Temperature::from_degrees_celsius(5)).as_percentage(), 2500);
    assert_eq!(one.next_fan_duty(Temperature::from_degrees_celsius(11)).as_percentage(), 10000);
}

#[test]
fn percentage_exponent_notation() {
    assert_eq!(Duty::from_percentage_str("5e1").unwrap().as_percentage(), 5000);
    assert_eq!(Duty::from_percentage_str("1E2").unwrap().as_percentage(), 10000);
    assert_eq!(Duty::from_percentage_str("2.5e+1").unwrap().as_percentage(), 2500);
    assert_eq!(Duty::from_percentage_str("1e-2").unwrap().as_percentage(), 1);
    assert_eq!(Duty::from_percentage_str("12345e-5").unwrap().as_percentage(), 12);
    assert_eq!(Duty::from_percentage_str("1000e-1").unwrap().as_percentage(), 10000);
    assert_eq!(Duty::from_percentage_str("1e-400").unwrap().as_percentage(), 0);
    assert_eq!(Duty::from_percentage_str("0e99999999999999999999999").unwrap().as_percentage(), 0);
    assert_eq!(Duty::from_percentage_str("1000.1e-1"), Err(ParsePercentageError::TooBig));
    assert_eq!(Duty::from_percentage_str("1e400"), Err(ParsePercentageError::TooBig));
    assert_eq!(Duty::from_percentage_str("-5e1"), Err(ParsePercentageError::Negative));
    assert_eq!(Duty::from_percentage_str("1e"), Err(ParsePercentageError::Malformed));
    assert_eq!(Duty::from_percentage_str("e5"), Err(ParsePercentageError::Malformed));
    assert_eq!(Duty::from_percentage_str("1e5e1"), Err(ParsePercentageError::Malformed));
}

#[test]
fn percentage_infinity() {
    assert_eq!(Duty::from_percentage_str("inf"), Err(ParsePercentageError::TooBig));
    assert_eq!(Duty::from_percentage_str("+Infinity"), Err(ParsePercentageError::TooBig));
    assert_eq!(Duty::from_percentage_str("-inf"), Err(ParsePercentageError::Negative));
    assert_eq!(Duty::from_percentage_str("NaN"), Err(ParsePercentageError::Malformed));
}
