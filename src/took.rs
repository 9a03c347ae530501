//! How long a command took, as a fixed width text.

use vstd::prelude::*;

use crate::text::{decimal, pad_left, push_padded};

verus! {

/// A duration: whole seconds and the milliseconds of the last second.
pub struct Took {
    pub secs: u64,
    pub millis: u32,
}

/// `n` spaces.
pub open spec fn spaces(n: nat) -> Seq<char> {
    Seq::new(n, |i: int| ' ')
}

/// The text for a duration of `secs` seconds and `millis` milliseconds:
/// hours, minutes and seconds each in their own column, left blank when
/// zero, and the milliseconds only when the duration is under a minute.
/// Under a thousand hours it is fifteen characters wide.
pub open spec fn took_text(secs: nat, millis: nat) -> Seq<char> {
    let hours = secs / 3600;
    let minutes = (secs / 60) % 60;
    let seconds = secs % 60;
    (if hours > 0 {
        pad_left(decimal(hours), 3).push('h')
    } else {
        spaces(4)
    }) + (if minutes > 0 {
        pad_left(decimal(minutes), 2).push('m')
    } else {
        spaces(3)
    }) + (if seconds > 0 {
        pad_left(decimal(seconds), 2).push('s')
    } else {
        spaces(3)
    }) + (if hours == 0 && minutes == 0 {
        pad_left(decimal(millis), 3) + seq!['m', 's']
    } else {
        spaces(5)
    })
}

/// Appends `n` spaces to `out`.
fn push_spaces(out: &mut String, n: usize)
    ensures
        final(out)@ == old(out)@ + spaces(n as nat),
{
    let ghost start = out@;
    let mut i: usize = 0;
    while i < n
        invariant
            i <= n,
            out@ == start + spaces(i as nat),
        decreases n - i,
    {
        proof {
            reveal_strlit(" ");
        }
        out.append(" ");
        assert(out@ =~= start + spaces((i + 1) as nat));
        i = i + 1;
    }
}

impl Took {
    /// A duration of `secs` seconds and `millis` milliseconds.
    pub fn new(secs: u64, millis: u32) -> (r: Took)
        requires
            millis < 1000,
        ensures
            r.secs == secs,
            r.millis == millis,
    {
        Took { secs, millis }
    }

    /// The duration as text (see `took_text`).
    pub fn to_string(&self) -> (r: String)
        ensures
            r@ == took_text(self.secs as nat, self.millis as nat),
    {
        let hours = self.secs / 3600;
        let minutes = (self.secs / 60) % 60;
        let seconds = self.secs % 60;
        let mut out = String::new();
        proof {
            reveal_strlit("h");
            reveal_strlit("m");
            reveal_strlit("s");
            reveal_strlit("ms");
        }
        let ghost a = out@;
        if hours > 0 {
            push_padded(&mut out, hours, 3);
            out.append("h");
        } else {
            push_spaces(&mut out, 4);
        }
        let ghost b = out@;
        if minutes > 0 {
            push_padded(&mut out, minutes, 2);
            out.append("m");
        } else {
            push_spaces(&mut out, 3);
        }
        let ghost c = out@;
        if seconds > 0 {
            push_padded(&mut out, seconds, 2);
            out.append("s");
        } else {
            push_spaces(&mut out, 3);
        }
        let ghost d = out@;
        if hours == 0 && minutes == 0 {
            push_padded(&mut out, self.millis as u64, 3);
            out.append("ms");
        } else {
            push_spaces(&mut out, 5);
        }
        proof {
            let secs = self.secs as nat;
            let hp = if hours > 0 {
                pad_left(decimal(hours as nat), 3).push('h')
            } else {
                spaces(4)
            };
            assert(b =~= a + hp);
            assert(out@ =~= took_text(secs, self.millis as nat));
        }
        out
    }
}

} // verus!
