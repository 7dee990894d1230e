use vstd::prelude::*;
use vstd::string::*;
use crate::decimal::{lemma_percentage_bounded, parse_percentage, percentage_of};
use crate::text::{decimal, digit_char, digit_str, push_decimal};

verus! {

/// Size of the EC register block.
pub const EC_REG_SIZE: usize = 0x100;
/// Offset of the CPU temperature, in degrees Celsius.
pub const EC_REG_CPU_TEMP: usize = 0x07;
/// Offset of the GPU temperature, in degrees Celsius.
pub const EC_REG_GPU_TEMP: usize = 0xCD;
/// Offset of the fan duty point, linear over `0..=255`.
pub const EC_REG_FAN_DUTY: usize = 0xCE;
/// Offset of the high byte of the tachometer period.
pub const EC_REG_FAN_RPMS_HI: usize = 0xD0;
/// Offset of the low byte of the tachometer period.
pub const EC_REG_FAN_RPMS_LO: usize = 0xD1;

/// Tachometer calibration: EC ticks per minute for this controller family.
pub const RPM_CALIBRATION: u32 = 2156220;

/// A full duty, in hundredths of a percent.
pub const FULL_DUTY: u16 = 10000;

/// Revolutions per minute for a raw tachometer period.
pub open spec fn rpm_of_period(period: int) -> int {
    if period > 0 {
        RPM_CALIBRATION as int / period
    } else {
        0
    }
}

/// `x` limited to `lo..=hi`.
pub open spec fn clamp(x: int, lo: int, hi: int) -> int {
    if x < lo {
        lo
    } else if x > hi {
        hi
    } else {
        x
    }
}

/// A temperature, kept in tenths of a degree Celsius.
#[derive(Debug, Clone, Copy, PartialEq, Eq, Structural)]
pub struct Temperature {
    pub decidegrees: u32,
}

impl Temperature {
    /// Whole degrees, saturating at the largest byte.
    pub open spec fn degrees(self) -> int {
        clamp(self.decidegrees as int / 10, 0, 255)
    }

    pub fn from_degrees_celsius(degrees_celsius: u8) -> (r: Temperature)
        ensures
            r.decidegrees == degrees_celsius as int * 10,
            r.degrees() == degrees_celsius as int,
    {
        Temperature { decidegrees: degrees_celsius as u32 * 10 }
    }

    /// Whole degrees, truncated, and 255 for anything hotter.
    pub fn as_degrees_celsius(&self) -> (r: u8)
        ensures
            r as int == self.degrees(),
    {
        let d = self.decidegrees / 10;
        if d > 255 {
            255
        } else {
            d as u8
        }
    }

    /// The hottest temperature there is: stands for an unknown one.
    pub fn max() -> (r: Temperature)
        ensures
            r.decidegrees == u32::MAX,
            r.degrees() == 255,
    {
        Temperature { decidegrees: u32::MAX }
    }

    /// Display text: one decimal, with the unit unless `bare`.
    pub open spec fn text(self, bare: bool) -> Seq<char> {
        let t = decimal(self.decidegrees as nat / 10).push('.').push(
            digit_char(self.decidegrees as nat % 10),
        );
        if bare {
            t
        } else {
            t.push('°').push('C')
        }
    }

    /// The temperature as text, such as `45.0°C`, or `45.0` when `bare`.
    pub fn to_display_string(&self, bare: bool) -> (r: String)
        ensures
            r@ == self.text(bare),
    {
        proof {
            reveal_strlit(".");
            reveal_strlit("°C");
        }
        let mut out = String::new();
        push_decimal(&mut out, (self.decidegrees / 10) as u64);
        out.append(".");
        out.append(digit_str((self.decidegrees % 10) as u64));
        if !bare {
            out.append("°C");
        }
        assert(out@ =~= self.text(bare));
        out
    }
}

/// Fan duty, kept in hundredths of a percent: `0..=10000`.
#[derive(Debug, Clone, Copy, PartialEq, Eq, Structural)]
pub struct Duty {
    centi_percent: u16,
}

/// Duty of a point in `start..=end`, in hundredths of a percent, rounded to nearest.
pub open spec fn duty_of_point(point: int, start: int, end: int) -> int {
    ((point - start) * 20000 + (end - start)) / (2 * (end - start))
}

/// Point in `start..=end` of a duty, truncated.
pub open spec fn point_of_duty(centi: int, start: int, end: int) -> int {
    centi * (end - start) / 10000 + start
}

/// Why a percentage was refused.
#[derive(Debug, Clone, Copy, PartialEq, Eq, Structural)]
pub enum ParsePercentageError {
    TooBig,
    Negative,
    Malformed,
}

impl Duty {
    #[verifier::type_invariant]
    spec fn wf(self) -> bool {
        self.centi_percent <= FULL_DUTY
    }

    /// The duty in hundredths of a percent.
    pub closed spec fn centi(self) -> int {
        self.centi_percent as int
    }

    /// Duty of `point` in `start..=end`.
    pub fn from_point_in_range(point: u8, start: u8, end: u8) -> (r: Duty)
        requires
            start < end,
            start <= point <= end,
        ensures
            r.centi() == duty_of_point(point as int, start as int, end as int),
    {
        let span = (end - start) as u32;
        let off = (point - start) as u32;
        proof {
            assert(off * 20000 <= span * 20000) by (nonlinear_arith)
                requires off <= span;
        }
        let c = (off * 20000 + span) / (2 * span);
        proof {
            assert(c <= 10000) by (nonlinear_arith)
                requires c == (off * 20000 + span) / (2 * span), off <= span, span > 0;
        }
        Duty { centi_percent: c as u16 }
    }

    /// The point in `start..=end` that this duty is written as, truncated.
    pub fn to_point_in_range(&self, start: u8, end: u8) -> (r: u8)
        requires
            start < end,
        ensures
            r as int == point_of_duty(self.centi(), start as int, end as int),
    {
        proof {
            use_type_invariant(self);
        }
        let span = (end - start) as u32;
        let c = self.centi_percent as u32;
        proof {
            assert(c * span <= 10000 * span) by (nonlinear_arith)
                requires c <= 10000;
            assert(c * span / 10000 <= span) by (nonlinear_arith)
                requires c <= 10000, span > 0;
        }
        (c * span / 10000 + start as u32) as u8
    }

    /// Duty of a percentage given in hundredths of a percent.
    pub fn from_percentage(centi_percent: i64) -> (r: Result<Duty, ParsePercentageError>)
        ensures
            centi_percent > 10000 ==> r == Err::<Duty, _>(ParsePercentageError::TooBig),
            centi_percent < 0 ==> r == Err::<Duty, _>(ParsePercentageError::Negative),
            0 <= centi_percent <= 10000 ==> r is Ok && r->Ok_0.centi() == centi_percent,
    {
        if centi_percent > 10000 {
            Err(ParsePercentageError::TooBig)
        } else if centi_percent < 0 {
            Err(ParsePercentageError::Negative)
        } else {
            Ok(Duty { centi_percent: centi_percent as u16 })
        }
    }

    /// The duty in hundredths of a percent.
    pub fn as_percentage(&self) -> (r: u16)
        ensures
            r == self.centi(),
            r <= 10000,
    {
        proof {
            use_type_invariant(self);
        }
        self.centi_percent
    }

    /// Duty of a percentage in hundredths of a percent, limited to `0..=10000`.
    pub fn from_saturating_percentage(centi_percent: i64) -> (r: Duty)
        ensures
            r.centi() == clamp(centi_percent as int, 0, 10000),
    {
        match Self::from_percentage(centi_percent) {
            Ok(d) => d,
            Err(ParsePercentageError::TooBig) => Duty { centi_percent: FULL_DUTY },
            Err(_) => Duty { centi_percent: 0 },
        }
    }

    /// No duty at all.
    pub fn min() -> (r: Duty)
        ensures
            r.centi() == 0,
    {
        Duty { centi_percent: 0 }
    }

    /// Display text: two decimals, with a percent sign unless `bare`.
    pub open spec fn text(self, bare: bool) -> Seq<char> {
        let t = decimal(self.centi() as nat / 100).push('.').push(
            digit_char((self.centi() as nat % 100) / 10),
        ).push(digit_char(self.centi() as nat % 10));
        if bare {
            t
        } else {
            t.push('%')
        }
    }

    /// The duty as text, such as `50.20%`, or `50.20` when `bare`.
    pub fn to_display_string(&self, bare: bool) -> (r: String)
        ensures
            r@ == self.text(bare),
    {
        let c = self.centi_percent as u64;
        proof {
            reveal_strlit(".");
            reveal_strlit("%");
        }
        let mut out = String::new();
        push_decimal(&mut out, c / 100);
        out.append(".");
        out.append(digit_str((c % 100) / 10));
        out.append(digit_str(c % 10));
        if !bare {
            out.append("%");
        }
        assert(out@ =~= self.text(bare));
        out
    }
}

impl Duty {
    /// Reads a percentage such as `42.5` or `5e1`.
    pub fn from_percentage_str(percentage: &str) -> (r: Result<Duty, ParsePercentageError>)
        ensures
            percentage_of(percentage.spec_bytes()) is Ok ==> r is Ok && r->Ok_0.centi()
                == percentage_of(percentage.spec_bytes())->Ok_0,
            percentage_of(percentage.spec_bytes()) is Err ==> r == Err::<Duty, _>(
                percentage_of(percentage.spec_bytes())->Err_0,
            ),
    {
        match parse_percentage(percentage.as_bytes()) {
            Ok(c) => {
                proof {
                    lemma_percentage_bounded(percentage.spec_bytes());
                }
                Ok(Duty { centi_percent: c })
            },
            Err(e) => Err(e),
        }
    }
}

/// Rotation speed of the fan.
#[derive(Debug, Clone, Copy, PartialEq, Eq, Structural)]
pub struct Speed {
    pub rpm: u32,
}

impl Speed {
    /// Decodes the two tachometer bytes of the register block.
    pub fn from_raw_ec_bytes(lo: u8, hi: u8) -> (r: Speed)
        ensures
            r.rpm == rpm_of_period(hi as int * 256 + lo as int),
    {
        let raw: u32 = (hi as u32) * 256 + lo as u32;
        if raw > 0 {
            Speed { rpm: RPM_CALIBRATION / raw }
        } else {
            Speed { rpm: 0 }
        }
    }

    /// Display text: the number, followed by ` RPM` unless `bare`.
    pub open spec fn text(self, bare: bool) -> Seq<char> {
        if bare {
            decimal(self.rpm as nat)
        } else {
            decimal(self.rpm as nat) + seq![' ', 'R', 'P', 'M']
        }
    }

    /// The speed as text, such as `1000 RPM`, or `1000` when `bare`.
    pub fn to_display_string(&self, bare: bool) -> (r: String)
        ensures
            r@ == self.text(bare),
    {
        proof {
            reveal_strlit(" RPM");
        }
        let mut out = String::new();
        push_decimal(&mut out, self.rpm as u64);
        if !bare {
            out.append(" RPM");
        }
        assert(out@ =~= self.text(bare));
        out
    }
}

/// A snapshot of the EC's telemetry.
#[derive(Debug, Clone, Copy)]
pub struct Registers {
    pub cpu_temp: Temperature,
    pub gpu_temp: Temperature,
    pub fan_duty: Duty,
    pub fan_speed: Speed,
}

impl Registers {
    /// Display text: one labelled line per value.
    pub open spec fn text(self) -> Seq<char> {
        "CPU Temp: "@ + self.cpu_temp.text(false) + "\nGPU Temp: "@ + self.gpu_temp.text(false)
            + "\nFan Duty: "@ + self.fan_duty.text(false) + "\nFan Speed: "@
            + self.fan_speed.text(false)
    }

    /// The snapshot as text, one labelled value per line.
    pub fn to_display_string(&self) -> (r: String)
        ensures
            r@ == self.text(),
    {
        let mut out = String::new();
        out.append("CPU Temp: ");
        out.append(self.cpu_temp.to_display_string(false).as_str());
        out.append("\nGPU Temp: ");
        out.append(self.gpu_temp.to_display_string(false).as_str());
        out.append("\nFan Duty: ");
        out.append(self.fan_duty.to_display_string(false).as_str());
        out.append("\nFan Speed: ");
        out.append(self.fan_speed.to_display_string(false).as_str());
        out
    }

    /// Decodes a register block.
    pub fn from_block(buf: &[u8]) -> (r: Registers)
        requires
            buf@.len() == EC_REG_SIZE,
        ensures
            r.cpu_temp.decidegrees == buf@[EC_REG_CPU_TEMP as int] as int * 10,
            r.gpu_temp.decidegrees == buf@[EC_REG_GPU_TEMP as int] as int * 10,
            r.fan_duty.centi() == duty_of_point(buf@[EC_REG_FAN_DUTY as int] as int, 0, 255),
            r.fan_speed.rpm == rpm_of_period(
                buf@[EC_REG_FAN_RPMS_HI as int] as int * 256 + buf@[EC_REG_FAN_RPMS_LO as int] as int,
            ),
    {
        Registers {
            cpu_temp: Temperature::from_degrees_celsius(buf[EC_REG_CPU_TEMP]),
            gpu_temp: Temperature::from_degrees_celsius(buf[EC_REG_GPU_TEMP]),
            fan_duty: Duty::from_point_in_range(buf[EC_REG_FAN_DUTY], 0, 255),
            fan_speed: Speed::from_raw_ec_bytes(buf[EC_REG_FAN_RPMS_LO], buf[EC_REG_FAN_RPMS_HI]),
        }
    }
}

/// Decoding a duty byte and writing it back loses at most one unit.
pub proof fn lemma_duty_point_round_trip(b: u8)
    ensures
        b as int - 1 <= point_of_duty(duty_of_point(b as int, 0, 255), 0, 255) <= b as int,
{
    let c = duty_of_point(b as int, 0, 255);
    assert(c * 510 <= b * 20000 + 255 && c * 510 > b * 20000 + 255 - 510) by (nonlinear_arith)
        requires c == (b * 20000 + 255) / 510;
    let p = c * 255 / 10000;
    assert(b - 1 <= p <= b) by (nonlinear_arith)
        requires
            p == c * 255 / 10000,
            c * 510 <= b * 20000 + 255,
            c * 510 > b * 20000 + 255 - 510;
}

} // verus!
