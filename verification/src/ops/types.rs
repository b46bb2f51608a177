//! The tool and the settings shared by all operations.
use vstd::prelude::*;
use crate::error::{CamError, CamResult};
use crate::linking::LinkingSettings;

verus! {

#[derive(Debug, Clone, Copy, PartialEq, Eq, Structural)]
pub struct Tool {
    pub diameter: i64,
    pub feed_rate: i64,
    pub plunge_rate: i64,
    pub spindle_rpm: i64,
}

/// Why the four values do not describe a tool, if they do not: the message
/// for the first of them that is not positive.
pub open spec fn tool_fault(diameter: i64, feed_rate: i64, plunge_rate: i64, spindle_rpm: i64) -> Option<
    Seq<char>,
> {
    if diameter <= 0 {
        Some("tool diameter must be positive"@)
    } else if feed_rate <= 0 {
        Some("feed rate must be positive"@)
    } else if plunge_rate <= 0 {
        Some("plunge rate must be positive"@)
    } else if spindle_rpm <= 0 {
        Some("spindle RPM must be positive"@)
    } else {
        None
    }
}

impl Tool {
    /// A tool; each of the four values must be positive.
    pub fn new(diameter: i64, feed_rate: i64, plunge_rate: i64, spindle_rpm: i64) -> (r: CamResult<
        Self,
    >)
        ensures
            match r {
                Ok(t) => tool_fault(diameter, feed_rate, plunge_rate, spindle_rpm) is None && t == (
                Tool { diameter, feed_rate, plunge_rate, spindle_rpm }),
                Err(e) => tool_fault(diameter, feed_rate, plunge_rate, spindle_rpm) == Some(
                    e@->InvalidArgument_0,
                ) && e@ is InvalidArgument,
            },
    {
        if diameter <= 0 {
            return Err(CamError::invalid_argument("tool diameter must be positive"));
        }
        if feed_rate <= 0 {
            return Err(CamError::invalid_argument("feed rate must be positive"));
        }
        if plunge_rate <= 0 {
            return Err(CamError::invalid_argument("plunge rate must be positive"));
        }
        if spindle_rpm <= 0 {
            return Err(CamError::invalid_argument("spindle RPM must be positive"));
        }
        Ok(Tool { diameter, feed_rate, plunge_rate, spindle_rpm })
    }

    /// Half the diameter, rounded down.
    pub open spec fn spec_radius(self) -> int {
        self.diameter as int / 2
    }

    /// Half the diameter, rounded down.
    pub fn radius(&self) -> (r: i64)
        ensures
            r == self.spec_radius(),
    {
        if self.diameter >= 0 {
            self.diameter / 2
        } else {
            let q = crate::units::div_floor(self.diameter as i128, 2);
            q as i64
        }
    }
}

#[derive(Debug, Clone, Copy, PartialEq, Eq, Structural)]
pub struct OperationSettings {
    pub tool: Tool,
    pub linking: LinkingSettings,
}

impl OperationSettings {
    pub fn new(tool: Tool, linking: LinkingSettings) -> (s: Self)
        ensures
            s == (OperationSettings { tool, linking }),
    {
        OperationSettings { tool, linking }
    }
}

} // verus!
