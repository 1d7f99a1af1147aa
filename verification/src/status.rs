//! Rendering the `Status` counter published on a `Source` object: the
//! literal form `"processed/total"`, whose numerator this controller
//! always renders as zero.

use vstd::prelude::*;
use vstd::string::{StrSliceExecFns, StringExecFns};
use crate::types::Status;

verus! {

/// The decimal digit character for a value below ten.
pub open spec fn digit_char(d: nat) -> char {
    if d == 0 {
        '0'
    } else if d == 1 {
        '1'
    } else if d == 2 {
        '2'
    } else if d == 3 {
        '3'
    } else if d == 4 {
        '4'
    } else if d == 5 {
        '5'
    } else if d == 6 {
        '6'
    } else if d == 7 {
        '7'
    } else if d == 8 {
        '8'
    } else {
        '9'
    }
}

/// The decimal rendering of a natural number, most significant digit
/// first, without leading zeros (except for zero itself).
pub open spec fn dec_str(n: nat) -> Seq<char>
    decreases n,
{
    if n < 10 {
        seq![digit_char(n)]
    } else {
        dec_str(n / 10).push(digit_char(n % 10))
    }
}

/// The full status counter: a zero numerator, a slash, and the total.
pub open spec fn status_ready_str(total: nat) -> Seq<char> {
    seq!['0', '/'] + dec_str(total)
}

/// The one-character string for a decimal digit.
fn digit_str(d: usize) -> (r: &'static str)
    requires
        d < 10,
    ensures
        r@ == seq![digit_char(d as nat)],
{
    let digits = "0123456789";
    proof {
        reveal_strlit("0123456789");
    }
    let r = digits.substring_char(d, d + 1);
    proof {
        assert(r@ =~= seq![digit_char(d as nat)]);
    }
    r
}

/// Append the decimal rendering of `n` to `s`.
fn push_dec(s: &mut String, n: usize)
    ensures
        final(s)@ == old(s)@ + dec_str(n as nat),
    decreases n,
{
    if n >= 10 {
        push_dec(s, n / 10);
        let d = digit_str(n % 10);
        s.append(d);
        proof {
            assert(s@ =~= old(s)@ + dec_str(n as nat));
        }
    } else {
        let d = digit_str(n);
        s.append(d);
        proof {
            assert(s@ =~= old(s)@ + dec_str(n as nat));
        }
    }
}

/// Render the status published after registration: `"0/<total>"`. The
/// numerator is the literal zero the controller has always shown.
pub fn format_status(total: usize) -> (r: Status)
    ensures
        r.ready@ == status_ready_str(total as nat),
{
    let mut s = String::from_str("0/");
    proof {
        reveal_strlit("0/");
        assert(s@ =~= seq!['0', '/']);
    }
    push_dec(&mut s, total);
    proof {
        assert(s@ =~= status_ready_str(total as nat));
    }
    Status { ready: s }
}

} // verus!
