//! The doctor report model: named checks with a pass/warn/fail level.

use vstd::prelude::*;

verus! {

#[derive(Debug, Clone, Copy, PartialEq, Eq, Structural)]
pub enum CheckLevel {
    /// Healthy.
    Pass,
    Warn,
    Fail,
}

pub struct DoctorReport {
    pub checks: Vec<DoctorCheck>,
    /// Informational cross-thread observations; they never affect
    /// `all_passed`.
    pub advisories: Vec<String>,
}

pub struct DoctorCheck {
    pub name: String,
    pub level: CheckLevel,
    pub detail: Option<String>,
}

impl DoctorCheck {
    /// True unless the check failed (warnings pass).
    pub fn passed(&self) -> (r: bool)
        ensures
            r == (self.level != CheckLevel::Fail),
    {
        self.level != CheckLevel::Fail
    }
}

impl DoctorReport {
    /// True when no check failed; advisories never count.
    pub fn all_passed(&self) -> (r: bool)
        ensures
            r == (forall|i: int| 0 <= i < self.checks@.len() ==> #[trigger] self.checks@[i].level != CheckLevel::Fail),
    {
        let mut i: usize = 0;
        while i < self.checks.len()
            invariant
                i <= self.checks@.len(),
                forall|j: int| 0 <= j < i ==> #[trigger] self.checks@[j].level != CheckLevel::Fail,
            decreases self.checks@.len() - i,
        {
            if !self.checks[i].passed() {
                return false;
            }
            i += 1;
        }
        true
    }
}

} // verus!
