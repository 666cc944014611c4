//! The lines that a dinner writes out: a reading of the clock, the number of
//! a seat counted from one, and what the philosopher there is doing.

use vstd::prelude::*;
use vstd::string::StringExecFns;

verus! {

/// What an observation says of a philosopher.
#[derive(Clone, Copy, Debug, PartialEq, Eq, Structural)]
pub enum Status {
    Thinking,
    TakenFork,
    Eating,
    Sleeping,
    Died,
    /// The philosopher is in a state that shows nothing to the outside.
    Unseen,
}

/// The character that stands for the digit `d`.
pub open spec fn digit_char(d: nat) -> char {
    if d == 0 {
        '0'
    } else if d == 1 {
        '1'
    } else if d == 2 {
        '2'
    } else if d == 3 {
        '3'
    } else if d == 4 {
        '4'
    } else if d == 5 {
        '5'
    } else if d == 6 {
        '6'
    } else if d == 7 {
        '7'
    } else if d == 8 {
        '8'
    } else {
        '9'
    }
}

/// The number `n` written in decimal, without leading zeros.
pub open spec fn decimal_text(n: nat) -> Seq<char>
    decreases n,
{
    if n < 10 {
        seq![digit_char(n)]
    } else {
        decimal_text(n / 10).push(digit_char(n % 10))
    }
}

/// The words of a status.
pub open spec fn status_text(status: Status) -> Seq<char> {
    match status {
        Status::Thinking => "is thinking"@,
        Status::TakenFork => "has taken a fork"@,
        Status::Eating => "is eating"@,
        Status::Sleeping => "is sleeping"@,
        Status::Died => "died"@,
        Status::Unseen => "error"@,
    }
}

/// One line of observation: the time, the seat counted from one, and the
/// status, with one space between them.
pub open spec fn line_text(now: nat, position: nat, status: Status) -> Seq<char> {
    decimal_text(now) + seq![' '] + decimal_text(position + 1) + seq![' '] + status_text(status)
}

impl Status {
    /// The words of this status.
    pub fn text(&self) -> (words: &'static str)
        ensures
            words@ == status_text(*self),
    {
        match self {
            Status::Thinking => "is thinking",
            Status::TakenFork => "has taken a fork",
            Status::Eating => "is eating",
            Status::Sleeping => "is sleeping",
            Status::Died => "died",
            Status::Unseen => "error",
        }
    }
}

/// The digit `d` as a string of one character.
fn digit_str(d: u8) -> (s: &'static str)
    requires
        d < 10,
    ensures
        s@ == seq![digit_char(d as nat)],
{
    proof {
        reveal_strlit("0");
        reveal_strlit("1");
        reveal_strlit("2");
        reveal_strlit("3");
        reveal_strlit("4");
        reveal_strlit("5");
        reveal_strlit("6");
        reveal_strlit("7");
        reveal_strlit("8");
        reveal_strlit("9");
    }
    let s = if d == 0 {
        "0"
    } else if d == 1 {
        "1"
    } else if d == 2 {
        "2"
    } else if d == 3 {
        "3"
    } else if d == 4 {
        "4"
    } else if d == 5 {
        "5"
    } else if d == 6 {
        "6"
    } else if d == 7 {
        "7"
    } else if d == 8 {
        "8"
    } else {
        "9"
    };
    assert(s@ =~= seq![digit_char(d as nat)]);
    s
}

/// Writes `n` in decimal at the end of `out`.
pub fn push_decimal(out: &mut String, n: u128)
    ensures
        final(out)@ == old(out)@ + decimal_text(n as nat),
    decreases n,
{
    if n >= 10 {
        push_decimal(out, n / 10);
    }
    out.append(digit_str((n % 10) as u8));
    assert(final(out)@ =~= old(out)@ + decimal_text(n as nat));
}

/// The line that reports `status` of the philosopher at seat `position`,
/// read at `now`.
pub fn observation_line(now: u128, position: usize, status: Status) -> (line: String)
    ensures
        line@ == line_text(now as nat, position as nat, status),
{
    proof {
        reveal_strlit(" ");
    }
    let mut line = String::new();
    push_decimal(&mut line, now);
    line.append(" ");
    push_decimal(&mut line, position as u128 + 1);
    line.append(" ");
    line.append(status.text());
    assert(" "@ =~= seq![' ']);
    assert(line@ =~= line_text(now as nat, position as nat, status));
    line
}

} // verus!
