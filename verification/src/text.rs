//! Rendering of the fixed record texts that the probe handlers emit:
//! decimal numbers and the small set of message formats.

use vstd::prelude::*;
use vstd::string::StringExecFns;

verus! {

/// The character for the decimal digit `d`.
pub open spec fn dec_digit(d: int) -> char {
    if d == 0 {
        '0'
    } else if d == 1 {
        '1'
    } else if d == 2 {
        '2'
    } else if d == 3 {
        '3'
    } else if d == 4 {
        '4'
    } else if d == 5 {
        '5'
    } else if d == 6 {
        '6'
    } else if d == 7 {
        '7'
    } else if d == 8 {
        '8'
    } else {
        '9'
    }
}

/// The decimal representation of `n`, most significant digit first,
/// with no leading zeros (a single `'0'` for zero).
pub open spec fn dec_rep(n: nat) -> Seq<char>
    decreases n,
{
    if n < 10 {
        seq![dec_digit(n as int)]
    } else {
        dec_rep(n / 10).push(dec_digit((n % 10) as int))
    }
}

/// The decimal representation of a possibly negative number: a leading
/// `'-'` before the magnitude when `n` is negative.
pub open spec fn int_rep(n: int) -> Seq<char> {
    if n < 0 {
        seq!['-'] + dec_rep((-n) as nat)
    } else {
        dec_rep(n as nat)
    }
}

/// Appends the character for the single decimal digit `d`.
fn append_digit(s: &mut String, d: u64)
    requires
        d < 10,
    ensures
        final(s)@ == old(s)@.push(dec_digit(d as int)),
{
    match d {
        0 => {
            proof {
                reveal_strlit("0");
            }
            s.append("0");
        },
        1 => {
            proof {
                reveal_strlit("1");
            }
            s.append("1");
        },
        2 => {
            proof {
                reveal_strlit("2");
            }
            s.append("2");
        },
        3 => {
            proof {
                reveal_strlit("3");
            }
            s.append("3");
        },
        4 => {
            proof {
                reveal_strlit("4");
            }
            s.append("4");
        },
        5 => {
            proof {
                reveal_strlit("5");
            }
            s.append("5");
        },
        6 => {
            proof {
                reveal_strlit("6");
            }
            s.append("6");
        },
        7 => {
            proof {
                reveal_strlit("7");
            }
            s.append("7");
        },
        8 => {
            proof {
                reveal_strlit("8");
            }
            s.append("8");
        },
        _ => {
            proof {
                reveal_strlit("9");
            }
            s.append("9");
        },
    }
    proof {
        assert(s@ =~= old(s)@.push(dec_digit(d as int)));
    }
}

/// Appends the decimal representation of `n`.
pub fn push_decimal(s: &mut String, n: u64)
    ensures
        final(s)@ == old(s)@ + dec_rep(n as nat),
    decreases n,
{
    if n >= 10 {
        push_decimal(s, n / 10);
    }
    append_digit(s, n % 10);
    proof {
        if n < 10 {
            assert(s@ =~= old(s)@ + dec_rep(n as nat));
        } else {
            assert(s@ =~= old(s)@ + dec_rep(n as nat));
        }
    }
}

/// The decimal representation of `n` as an owned string.
pub fn u64_to_string(n: u64) -> (r: String)
    ensures
        r@ == dec_rep(n as nat),
{
    let mut s = String::new();
    push_decimal(&mut s, n);
    proof {
        assert(s@ =~= dec_rep(n as nat));
    }
    s
}

/// The text of the record an exit-side probe emits after matching an
/// entry: the task and the elapsed nanoseconds of the correlated call.
pub open spec fn duration_text(task: u64, duration_ns: u64) -> Seq<char> {
    "futex call duration for pid "@ + dec_rep(task as nat) + " was "@ + dec_rep(
        duration_ns as nat,
    ) + " ns"@
}

/// Renders the duration record text for `task` and `duration_ns`.
pub fn duration_message(task: u64, duration_ns: u64) -> (r: String)
    ensures
        r@ == duration_text(task, duration_ns),
{
    let mut s = String::from_str("futex call duration for pid ");
    push_decimal(&mut s, task);
    s.append(" was ");
    push_decimal(&mut s, duration_ns);
    s.append(" ns");
    s
}

/// The text of the record the return-side probe on the allocation
/// function emits: the (possibly negative) returned value.
pub open spec fn malloc_text(retval: i32) -> Seq<char> {
    "malloc returned: "@ + int_rep(retval as int)
}

/// Renders the allocation-return record text for `retval`.
pub fn malloc_message(retval: i32) -> (r: String)
    ensures
        r@ == malloc_text(retval),
{
    let mut s = String::from_str("malloc returned: ");
    if retval < 0 {
        s.append("-");
        let magnitude: u64 = (-(retval as i64)) as u64;
        push_decimal(&mut s, magnitude);
        proof {
            reveal_strlit("-");
            assert(s@ =~= malloc_text(retval));
        }
    } else {
        push_decimal(&mut s, retval as u64);
    }
    s
}

/// The text of the record a plain probe emits on its event: the event
/// name followed by an invocation note.
pub open spec fn invoked_text(name: Seq<char>) -> Seq<char> {
    name + " invoked"@
}

/// Renders the plain invocation record text for the event `name`.
pub fn invoked_message(name: &str) -> (r: String)
    ensures
        r@ == invoked_text(name@),
{
    let mut s = name.to_owned();
    s.append(" invoked");
    s
}

} // verus!
