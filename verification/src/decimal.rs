//! Numbers in decimal, as the store writes the two halves of an entry's
//! identifier.

use vstd::prelude::*;
use vstd::string::StringExecFns;

verus! {

/// The character of the digit `d`.
pub open spec fn digit(d: nat) -> char
    recommends
        d < 10,
{
    if d == 0 {
        '0'
    } else if d == 1 {
        '1'
    } else if d == 2 {
        '2'
    } else if d == 3 {
        '3'
    } else if d == 4 {
        '4'
    } else if d == 5 {
        '5'
    } else if d == 6 {
        '6'
    } else if d == 7 {
        '7'
    } else if d == 8 {
        '8'
    } else {
        '9'
    }
}

/// `n` in decimal: no sign, no leading zero, `0` for zero.
pub open spec fn decimal(n: nat) -> Seq<char>
    decreases n,
{
    if n < 10 {
        seq![digit(n)]
    } else {
        decimal(n / 10).push(digit(n % 10))
    }
}

/// The identifier of the entry with the time stamp `t0`, `t1`: both halves
/// in decimal, a hyphen between them.
pub open spec fn entry_id(t0: u64, t1: u64) -> Seq<char> {
    decimal(t0 as nat) + seq!['-'] + decimal(t1 as nat)
}

/// The digit `d` as text.
fn digit_text(d: u64) -> (text: &'static str)
    requires
        d < 10,
    ensures
        text@ == seq![digit(d as nat)],
{
    proof {
        reveal_strlit("0");
        reveal_strlit("1");
        reveal_strlit("2");
        reveal_strlit("3");
        reveal_strlit("4");
        reveal_strlit("5");
        reveal_strlit("6");
        reveal_strlit("7");
        reveal_strlit("8");
        reveal_strlit("9");
    }
    let text: &'static str = if d == 0 {
        "0"
    } else if d == 1 {
        "1"
    } else if d == 2 {
        "2"
    } else if d == 3 {
        "3"
    } else if d == 4 {
        "4"
    } else if d == 5 {
        "5"
    } else if d == 6 {
        "6"
    } else if d == 7 {
        "7"
    } else if d == 8 {
        "8"
    } else {
        "9"
    };
    proof {
        assert(text@ =~= seq![digit(d as nat)]);
    }
    text
}

/// Appends `n` in decimal to `out`.
pub fn push_decimal(out: &mut String, n: u64)
    ensures
        final(out)@ == old(out)@ + decimal(n as nat),
    decreases n,
{
    if n >= 10 {
        push_decimal(out, n / 10);
    }
    out.append(digit_text(n % 10));
    proof {
        let last = seq![digit((n % 10) as nat)];
        if n >= 10 {
            let front = decimal((n / 10) as nat);
            assert(old(out)@ + front + last =~= old(out)@ + front.push(digit((n % 10) as nat)));
        } else {
            assert(decimal(n as nat) =~= last);
        }
    }
}

/// The identifier of the entry with the time stamp `t0`, `t1`, as the
/// store writes it.
pub fn format_entry_id(t0: u64, t1: u64) -> (id: String)
    ensures
        id@ == entry_id(t0, t1),
{
    let mut id: String = String::new();
    push_decimal(&mut id, t0);
    proof {
        reveal_strlit("-");
        assert("-"@ =~= seq!['-']);
    }
    id.append("-");
    push_decimal(&mut id, t1);
    proof {
        assert(id@ =~= entry_id(t0, t1));
    }
    id
}

} // verus!
