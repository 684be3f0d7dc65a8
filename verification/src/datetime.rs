//! A plain calendar timestamp.  The package encoder needs only what it can
//! print, so the type holds the broken-down fields as plain integers; the
//! caller converts from whatever clock or date library it uses.

use crate::strutil::{pad2, pad2_spec, pad4, pad4_spec};
use vstd::prelude::*;

verus! {

/// A timestamp in universal time, held as plain broken-down fields.
#[derive(Debug, Clone, Copy)]
pub struct EpubDateTime {
    pub year: u64,
    pub month: u64,
    pub day: u64,
    pub hour: u64,
    pub minute: u64,
    pub second: u64,
}

/// Validity of a broken-down timestamp as far as formatting needs it.
pub open spec fn datetime_valid(d: EpubDateTime) -> bool {
    1 <= d.month <= 12 && 1 <= d.day <= 31 && d.hour < 24 && d.minute < 60 && d.second < 60
}

/// The timestamp formatted as `YYYY-MM-DDTHH:MM:SS +0000`; the year is
/// zero-padded to at least four digits and keeps all its digits beyond
/// that.
pub open spec fn datetime_fmt_spec(d: EpubDateTime) -> Seq<char> {
    pad4_spec(d.year as nat) + "-"@ + pad2_spec(d.month as nat) + "-"@ + pad2_spec(d.day as nat)
        + "T"@ + pad2_spec(d.hour as nat) + ":"@ + pad2_spec(d.minute as nat) + ":"@ + pad2_spec(
        d.second as nat,
    ) + " +0000"@
}

impl EpubDateTime {
    /// Bundle broken-down universal-time fields.
    pub fn new(year: u64, month: u64, day: u64, hour: u64, minute: u64, second: u64) -> (r:
        EpubDateTime)
        requires
            1 <= month <= 12,
            1 <= day <= 31,
            hour < 24,
            minute < 60,
            second < 60,
        ensures
            r == (EpubDateTime { year, month, day, hour, minute, second }),
            datetime_valid(r),
    {
        EpubDateTime { year, month, day, hour, minute, second }
    }

    /// Format the timestamp as `YYYY-MM-DDTHH:MM:SS +0000`.
    pub fn format(&self) -> (r: String)
        ensures
            r@ == datetime_fmt_spec(*self),
    {
        let mut out = pad4(self.year);
        out.append("-");
        let p = pad2(self.month);
        out.append(p.as_str());
        out.append("-");
        let p = pad2(self.day);
        out.append(p.as_str());
        out.append("T");
        let p = pad2(self.hour);
        out.append(p.as_str());
        out.append(":");
        let p = pad2(self.minute);
        out.append(p.as_str());
        out.append(":");
        let p = pad2(self.second);
        out.append(p.as_str());
        out.append(" +0000");
        out
    }
}

} // verus!
