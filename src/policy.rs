use vstd::prelude::*;
use vstd::string::*;
use crate::codec::{clamp, Duty, Temperature};

verus! {

/// Duty in hundredths of a percent for a target in millionths of a percent: rounded down,
/// and limited to `0..=10000`.
pub open spec fn duty_of_micro(x: int) -> int {
    clamp(x / 10000, 0, 10000)
}

/// A rule that picks the fan duty for a temperature.
pub trait FanPolicy {
    fn next_fan_duty(&self, temp: Temperature) -> Duty;
}

/// Duty that grows linearly with the temperature: `offset + slope * degrees`.
///
/// `slope` is in millionths of a percent per degree Celsius, `offset` in millionths of a
/// percent.
#[derive(Debug, Clone, Copy, PartialEq, Eq, Structural)]
pub struct Linear {
    pub slope: i64,
    pub offset: i64,
}

impl Linear {
    /// Target duty in millionths of a percent, before it is limited.
    pub open spec fn target(self, degrees: int) -> int {
        self.offset + self.slope * degrees
    }

    pub fn duty_for(&self, temp: Temperature) -> (r: Duty)
        ensures
            r.centi() == duty_of_micro(self.target(temp.degrees())),
    {
        let d = temp.as_degrees_celsius() as i128;
        let s = self.slope as i128;
        proof {
            assert(-0x8000_0000_0000_0000 * 255 <= s * d <= 0x7fff_ffff_ffff_ffff * 255)
                by (nonlinear_arith)
                requires -0x8000_0000_0000_0000 <= s <= 0x7fff_ffff_ffff_ffff, 0 <= d <= 255;
        }
        let t = self.offset as i128 + s * d;
        let c: i64 = if t < 0 {
            0
        } else if t / 10000 > 10000 {
            10000
        } else {
            (t / 10000) as i64
        };
        Duty::from_saturating_percentage(c)
    }
}

impl FanPolicy for Linear {
    fn next_fan_duty(&self, temp: Temperature) -> (r: Duty)
        ensures
            r.centi() == duty_of_micro(self.target(temp.degrees())),
    {
        self.duty_for(temp)
    }
}

impl Default for Linear {
    /// One percent per degree, from zero.
    fn default() -> (r: Linear)
        ensures
            r.slope == 1_000_000,
            r.offset == 0,
    {
        Linear { slope: 1_000_000, offset: 0 }
    }
}

/// Duty that grows with the square of the temperature: `factor * degrees²`.
///
/// `factor` is in millionths of a percent per square degree.
#[derive(Debug, Clone, Copy, PartialEq, Eq, Structural)]
pub struct Quadratic {
    pub factor: i64,
}

impl Quadratic {
    /// Target duty in millionths of a percent, before it is limited.
    pub open spec fn target(self, degrees: int) -> int {
        self.factor * (degrees * degrees)
    }

    pub fn duty_for(&self, temp: Temperature) -> (r: Duty)
        ensures
            r.centi() == duty_of_micro(self.target(temp.degrees())),
    {
        let du = temp.as_degrees_celsius() as u32;
        proof {
            assert(du * du <= 65025) by (nonlinear_arith)
                requires du <= 255;
        }
        let sq = (du * du) as i128;
        let f = self.factor as i128;
        proof {
            assert(-0x8000_0000_0000_0000 * 65025 <= f * sq <= 0x7fff_ffff_ffff_ffff * 65025)
                by (nonlinear_arith)
                requires -0x8000_0000_0000_0000 <= f <= 0x7fff_ffff_ffff_ffff, 0 <= sq <= 65025;
        }
        let t = f * sq;
        let c: i64 = if t < 0 {
            0
        } else if t / 10000 > 10000 {
            10000
        } else {
            (t / 10000) as i64
        };
        Duty::from_saturating_percentage(c)
    }
}

impl FanPolicy for Quadratic {
    fn next_fan_duty(&self, temp: Temperature) -> (r: Duty)
        ensures
            r.centi() == duty_of_micro(self.target(temp.degrees())),
    {
        self.duty_for(temp)
    }
}

/// Base of an exponential duty curve.
#[derive(Debug, Clone, Copy, PartialEq, Eq, Structural)]
pub enum ExponentialBase {
    Euler,
    Binary,
}

/// A name that is no exponential base; it holds the name.
#[derive(Debug, PartialEq, Eq)]
pub struct InvalidExponentialBase(pub String);

/// The bytes of the names of Euler's number: `e` and `euler`.
pub open spec fn names_euler(b: Seq<u8>) -> bool {
    b == seq![101u8] || b == seq![101u8, 117u8, 108u8, 101u8, 114u8]
}

/// The bytes of the names of two: `2`, `bin` and `binary`.
pub open spec fn names_binary(b: Seq<u8>) -> bool {
    b == seq![50u8] || b == seq![98u8, 105u8, 110u8] || b == seq![
        98u8,
        105u8,
        110u8,
        97u8,
        114u8,
        121u8,
    ]
}

fn bytes_are(b: &[u8], lit: &[u8]) -> (r: bool)
    ensures
        r == (b@ == lit@),
{
    if b.len() != lit.len() {
        return false;
    }
    let mut i: usize = 0;
    while i < b.len()
        invariant
            i <= b@.len(),
            b@.len() == lit@.len(),
            forall|k: int| 0 <= k < i ==> b@[k] == lit@[k],
        decreases b@.len() - i,
    {
        if b[i] != lit[i] {
            return false;
        }
        i = i + 1;
    }
    assert(b@ =~= lit@);
    true
}

impl ExponentialBase {
    /// Reads a base by name.
    pub fn from_str(s: &str) -> (r: Result<ExponentialBase, InvalidExponentialBase>)
        ensures
            names_euler(s.spec_bytes()) ==> r == Ok::<_, InvalidExponentialBase>(ExponentialBase::Euler),
            names_binary(s.spec_bytes()) ==> r == Ok::<_, InvalidExponentialBase>(ExponentialBase::Binary),
            !names_euler(s.spec_bytes()) && !names_binary(s.spec_bytes()) ==> r is Err && r->Err_0.0@ == s@,
    {
        let b = s.as_bytes();
        let e: [u8; 1] = [101];
        let euler: [u8; 5] = [101, 117, 108, 101, 114];
        let two: [u8; 1] = [50];
        let bin: [u8; 3] = [98, 105, 110];
        let binary: [u8; 6] = [98, 105, 110, 97, 114, 121];
        assert(e@ =~= seq![101u8]);
        assert(euler@ =~= seq![101u8, 117u8, 108u8, 101u8, 114u8]);
        assert(two@ =~= seq![50u8]);
        assert(bin@ =~= seq![98u8, 105u8, 110u8]);
        assert(binary@ =~= seq![98u8, 105u8, 110u8, 97u8, 114u8, 121u8]);
        if bytes_are(b, &e) || bytes_are(b, &euler) {
            Ok(ExponentialBase::Euler)
        } else if bytes_are(b, &two) || bytes_are(b, &bin) || bytes_are(b, &binary) {
            Ok(ExponentialBase::Binary)
        } else {
            Err(InvalidExponentialBase(s.to_owned()))
        }
    }
}

} // verus!
