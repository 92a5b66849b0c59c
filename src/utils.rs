use vstd::prelude::*;
use crate::paths::{decimal, push_decimal};

verus! {

/// A recording time given in tenths of a second, as shown to the user:
/// `1h 2m 3.4s`, `2m 3.4s` or `3.4s`, hours and minutes only once they are
/// reached.
pub open spec fn duration_text(tenths: nat) -> Seq<char> {
    let hours = tenths / 36000;
    let minutes = (tenths / 600) % 60;
    let seconds = decimal((tenths % 600) / 10) + seq!['.'] + decimal(tenths % 10) + seq!['s'];
    if hours > 0 {
        decimal(hours) + seq!['h', ' '] + decimal(minutes) + seq!['m', ' '] + seconds
    } else if minutes > 0 {
        decimal(minutes) + seq!['m', ' '] + seconds
    } else {
        seconds
    }
}

/// Writes a recording time given in tenths of a second.
pub fn format_duration(tenths: u64) -> (r: String)
    ensures
        r@ == duration_text(tenths as nat),
{
    proof {
        reveal_strlit("h ");
        reveal_strlit("m ");
        reveal_strlit(".");
        reveal_strlit("s");
    }
    let hours = tenths / 36000;
    let minutes = (tenths / 600) % 60;
    let mut r = String::new();
    if hours > 0 {
        push_decimal(&mut r, hours);
        r.append("h ");
        push_decimal(&mut r, minutes);
        r.append("m ");
    } else if minutes > 0 {
        push_decimal(&mut r, minutes);
        r.append("m ");
    }
    push_decimal(&mut r, (tenths % 600) / 10);
    r.append(".");
    push_decimal(&mut r, tenths % 10);
    r.append("s");
    assert(r@ =~= duration_text(tenths as nat));
    r
}

/// Whole tenths of a second that `samples` samples last at `sample_rate` Hz.
pub fn recorded_tenths(samples: u64, sample_rate: u32) -> (r: u64)
    requires
        sample_rate > 0,
        samples <= u64::MAX / 10,
    ensures
        r as int == (samples as int * 10) / (sample_rate as int),
{
    samples * 10 / sample_rate as u64
}

} // verus!
