//! Numbers in texts.

use vstd::prelude::*;

verus! {

/// The decimal digits of a number.
pub open spec fn decimal(n: nat) -> Seq<char>
    decreases n,
{
    let digit = seq![(0x30 + n % 10) as char];
    if n < 10 {
        digit
    } else {
        decimal(n / 10) + digit
    }
}

/// A number in decimal, with a minus sign in front of it if it is negative.
pub open spec fn signed_decimal(n: int) -> Seq<char> {
    if n < 0 {
        "-"@ + decimal((-n) as nat)
    } else {
        decimal(n as nat)
    }
}

/// A single digit.
fn digit(d: u64) -> (s: &'static str)
    requires
        d < 10,
    ensures
        s@ == seq![(0x30 + d) as char],
{
    proof {
        reveal_strlit("0");
        reveal_strlit("1");
        reveal_strlit("2");
        reveal_strlit("3");
        reveal_strlit("4");
        reveal_strlit("5");
        reveal_strlit("6");
        reveal_strlit("7");
        reveal_strlit("8");
        reveal_strlit("9");
    }
    let s = match d {
        0 => "0",
        1 => "1",
        2 => "2",
        3 => "3",
        4 => "4",
        5 => "5",
        6 => "6",
        7 => "7",
        8 => "8",
        _ => "9",
    };
    assert(s@ =~= seq![(0x30 + d) as char]);
    s
}

/// Appends a number in decimal.
pub fn push_number(text: &mut String, n: u64)
    ensures
        final(text)@ == old(text)@ + decimal(n as nat),
    decreases n,
{
    if n >= 10 {
        push_number(text, n / 10);
    }
    text.append(digit(n % 10));
    assert(text@ =~= old(text)@ + decimal(n as nat));
}

/// Appends a number in decimal, with a minus sign if it is negative.
pub fn push_signed(text: &mut String, n: i32)
    ensures
        final(text)@ == old(text)@ + signed_decimal(n as int),
{
    if n < 0 {
        text.append("-");
        push_number(text, (-(n as i64)) as u64);
        assert(text@ =~= old(text)@ + signed_decimal(n as int));
    } else {
        push_number(text, n as u64);
    }
}

/// A name behind a text.
pub fn behind(before: &str, name: &str) -> (text: String)
    ensures
        text@ == before@ + name@,
{
    let mut text = String::new();
    text.append(before);
    text.append(name);
    assert(text@ =~= before@ + name@);
    text
}

/// A name between two texts.
pub fn around(before: &str, name: &str, after: &str) -> (text: String)
    ensures
        text@ == before@ + name@ + after@,
{
    let mut text = String::new();
    text.append(before);
    text.append(name);
    text.append(after);
    assert(text@ =~= before@ + name@ + after@);
    text
}

/// What is said of an error number.
pub open spec fn errno_text(errno: int) -> Seq<char> {
    " (errno="@ + signed_decimal(errno) + ")"@
}

/// A name behind a text, and an error number behind both.
pub fn with_errno(before: &str, name: &str, errno: i32) -> (text: String)
    ensures
        text@ == before@ + name@ + errno_text(errno as int),
{
    let mut text = String::new();
    text.append(before);
    text.append(name);
    text.append(" (errno=");
    push_signed(&mut text, errno);
    text.append(")");
    assert(text@ =~= before@ + name@ + errno_text(errno as int));
    text
}

/// A number below ten is one digit. The digits of a larger one are those of its tenth, and
/// its last digit behind them.
pub proof fn law_decimal(n: nat, d: nat)
    requires
        d < 10,
    ensures
        decimal(d).len() == 1,
        decimal(d)[0] as int == '0' as int + d,
        n > 0 ==> decimal(10 * n + d) == decimal(n) + decimal(d),
{
}

/// An error number stands behind a name in brackets, with a minus sign if it is negative.
pub proof fn law_errno_text(n: nat)
    ensures
        errno_text(n as int) == " (errno="@ + decimal(n) + ")"@,
        n > 0 ==> errno_text(-n) == " (errno=-"@ + decimal(n) + ")"@,
{
    reveal_strlit(" (errno=");
    reveal_strlit(" (errno=-");
    reveal_strlit("-");
    if n > 0 {
        assert(" (errno="@ + "-"@ =~= " (errno=-"@);
        assert(errno_text(-n) =~= " (errno=-"@ + decimal(n) + ")"@);
    }
}

} // verus!
