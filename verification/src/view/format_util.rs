//! How a span of time is shown.
use vstd::prelude::*;
use vstd::string::StringExecFns;
use crate::data::timestamp::{Duration, Precision};

verus! {

/// The character of a digit.
pub open spec fn digit_char(d: int) -> char {
    if d == 0 {
        '0'
    } else if d == 1 {
        '1'
    } else if d == 2 {
        '2'
    } else if d == 3 {
        '3'
    } else if d == 4 {
        '4'
    } else if d == 5 {
        '5'
    } else if d == 6 {
        '6'
    } else if d == 7 {
        '7'
    } else if d == 8 {
        '8'
    } else {
        '9'
    }
}

/// A number in decimal digits.
pub open spec fn digits(n: nat) -> Seq<char>
    decreases n,
{
    if n < 10 {
        seq![digit_char(n as int)]
    } else {
        digits(n / 10).push(digit_char((n % 10) as int))
    }
}

/// A number in decimal digits, with its sign if it is negative.
pub open spec fn decimal(n: int) -> Seq<char> {
    if n < 0 {
        seq!['-'] + digits((-n) as nat)
    } else {
        digits(n as nat)
    }
}

/// A text filled up to two characters with zeros in front.
pub open spec fn two_wide(s: Seq<char>) -> Seq<char> {
    if s.len() == 0 {
        seq!['0', '0']
    } else if s.len() == 1 {
        seq!['0'] + s
    } else {
        s
    }
}

/// The remainder of a division that rounds towards zero.
pub open spec fn remainder(n: int, by: int) -> int {
    if n >= 0 {
        n % by
    } else {
        -((-n) % by)
    }
}

/// A span of time as the listings show it: the hours, if there are any,
/// and the minutes beyond them. A span of less than a minute is shown as
/// such where the log keeps minutes, and by its seconds where it keeps
/// seconds.
pub open spec fn duration_text(duration: Duration, precision: Precision) -> Seq<char> {
    let seconds = duration.seconds as int;
    (if seconds >= 3600 {
        decimal(seconds / 3600) + seq!['h', ' ']
    } else {
        Seq::empty()
    }) + (if seconds >= 60 {
        two_wide(decimal((seconds / 60) % 60)) + seq!['m']
    } else {
        match precision {
            Precision::Minute => seq!['<', '1', 'm'],
            Precision::Second => two_wide(decimal(remainder(seconds, 60))) + seq!['s'],
        }
    })
}

fn digit(d: u128) -> (c: char)
    requires
        d < 10,
    ensures
        c == digit_char(d as int),
{
    if d == 0 {
        '0'
    } else if d == 1 {
        '1'
    } else if d == 2 {
        '2'
    } else if d == 3 {
        '3'
    } else if d == 4 {
        '4'
    } else if d == 5 {
        '5'
    } else if d == 6 {
        '6'
    } else if d == 7 {
        '7'
    } else if d == 8 {
        '8'
    } else {
        '9'
    }
}

/// Writes a number in decimal digits behind a text.
pub fn push_digits(text: &mut String, n: u128)
    ensures
        final(text)@ == old(text)@ + digits(n as nat),
    decreases n,
{
    if n >= 10 {
        push_digits(text, n / 10);
    }
    text.push(digit(n % 10));
    proof {
        if n >= 10 {
            assert(final(text)@ =~= old(text)@ + digits(n as nat));
        } else {
            assert(final(text)@ =~= old(text)@ + digits(n as nat));
        }
    }
}

/// A number in decimal digits, with its sign if it is negative.
pub fn number_text(n: i128) -> (r: String)
    ensures
        r@ == decimal(n as int),
{
    let mut text = String::new();
    if n < 0 {
        text.push('-');
        // the size of a negative number, which the number itself may not be able to hold
        let size: u128 = ((-(n + 1)) as u128) + 1;
        push_digits(&mut text, size);
        assert(text@ =~= decimal(n as int));
    } else {
        push_digits(&mut text, n as u128);
        assert(text@ =~= decimal(n as int));
    }
    text
}

/// A number in decimal digits, filled up to two characters with zeros in front.
pub fn two_digit_text(n: i128) -> (r: String)
    ensures
        r@ == two_wide(decimal(n as int)),
{
    let number = number_text(n);
    proof {
        lemma_digits_len(if n < 0 {
            (-n) as nat
        } else {
            n as nat
        });
    }
    if 0 <= n && n < 10 {
        let mut text = String::from_str("0");
        proof {
            reveal_strlit("0");
            assert(text@ =~= seq!['0']);
        }
        text.append(number.as_str());
        text
    } else {
        number
    }
}

/// A number has at least one digit, and two or more from ten on.
pub proof fn lemma_digits_len(n: nat)
    ensures
        digits(n).len() >= 1,
        n >= 10 ==> digits(n).len() >= 2,
        n < 10 ==> digits(n).len() == 1,
    decreases n,
{
    if n >= 10 {
        lemma_digits_len(n / 10);
    }
}

/// A span of time as the listings show it.
pub fn format_duration(duration: &Duration, precision: Precision) -> (r: String)
    ensures
        r@ == duration_text(*duration, precision),
{
    let mut duration_string = String::new();
    let seconds = duration.seconds;
    let hours = seconds / 3600;
    let minutes = seconds / 60;
    if hours > 0 {
        duration_string.append(number_text(hours).as_str());
        duration_string.append("h ");
        proof {
            reveal_strlit("h ");
            assert(duration_string@ =~= decimal(seconds as int / 3600) + seq!['h', ' ']);
        }
    }
    let ghost front = duration_string@;
    if minutes > 0 {
        duration_string.append(two_digit_text(minutes % 60).as_str());
        duration_string.push('m');
        assert(duration_string@ =~= front + (two_wide(decimal((seconds as int / 60) % 60))
            + seq!['m']));
    } else {
        match precision {
            Precision::Minute => {
                duration_string.append("<1m");
                proof {
                    reveal_strlit("<1m");
                    assert(duration_string@ =~= front + seq!['<', '1', 'm']);
                }
            },
            Precision::Second => {
                duration_string.append(two_digit_text(seconds % 60).as_str());
                duration_string.push('s');
                assert(duration_string@ =~= front + (two_wide(
                    decimal(remainder(seconds as int, 60)),
                ) + seq!['s']));
            },
        }
    }
    duration_string
}

} // verus!
