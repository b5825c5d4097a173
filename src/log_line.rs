use vstd::prelude::*;

verus! {

/// The character of a decimal digit.
pub open spec fn digit_char(d: nat) -> char {
    if d == 0 { '0' }
    else if d == 1 { '1' }
    else if d == 2 { '2' }
    else if d == 3 { '3' }
    else if d == 4 { '4' }
    else if d == 5 { '5' }
    else if d == 6 { '6' }
    else if d == 7 { '7' }
    else if d == 8 { '8' }
    else { '9' }
}

/// The decimal digits of `n`, most significant first, without leading zeros.
pub open spec fn decimal(n: nat) -> Seq<char>
    decreases n,
{
    if n < 10 {
        seq![digit_char(n)]
    } else {
        decimal(n / 10).push(digit_char(n % 10))
    }
}

/// Text logged when a client has been accepted and registered.
pub open spec fn connected_text(id: nat) -> Seq<char> {
    "Client #"@ + decimal(id) + " connected"@
}

/// Text logged when an accept attempt, or the session built on it, failed.
pub open spec fn accept_failed_text(message: Seq<char>) -> Seq<char> {
    "Cannot accept client: "@ + message
}

/// Severity of a log line.
#[derive(Clone, Copy, Debug, PartialEq, Eq, Structural)]
pub enum Level {
    Info,
    Error,
}

/// One line that the acceptor asks its caller to log.
#[derive(Debug)]
pub struct LogLine {
    pub level: Level,
    pub text: String,
}

fn digit_str(d: u32) -> (r: &'static str)
    requires
        d < 10,
    ensures
        r@ == seq![digit_char(d as nat)],
{
    proof {
        reveal_strlit("0");
        reveal_strlit("1");
        reveal_strlit("2");
        reveal_strlit("3");
        reveal_strlit("4");
        reveal_strlit("5");
        reveal_strlit("6");
        reveal_strlit("7");
        reveal_strlit("8");
        reveal_strlit("9");
    }
    match d {
        0 => "0",
        1 => "1",
        2 => "2",
        3 => "3",
        4 => "4",
        5 => "5",
        6 => "6",
        7 => "7",
        8 => "8",
        _ => "9",
    }
}

/// Writes `n` in decimal.
pub fn decimal_string(n: u32) -> (r: String)
    ensures
        r@ == decimal(n as nat),
    decreases n,
{
    if n < 10 {
        String::from_str(digit_str(n))
    } else {
        let mut s = decimal_string(n / 10);
        s.append(digit_str(n % 10));
        s
    }
}

/// The informational line for client `id` having connected.
pub fn connected_line(id: u32) -> (r: LogLine)
    ensures
        r.level == Level::Info,
        r.text@ == connected_text(id as nat),
{
    let mut text = String::from_str("Client #");
    let digits = decimal_string(id);
    text.append(digits.as_str());
    text.append(" connected");
    LogLine { level: Level::Info, text }
}

/// The error line for an accept attempt that failed with `message`.
pub fn accept_failed_line(message: &str) -> (r: LogLine)
    ensures
        r.level == Level::Error,
        r.text@ == accept_failed_text(message@),
{
    let mut text = String::from_str("Cannot accept client: ");
    text.append(message);
    LogLine { level: Level::Error, text }
}

} // verus!
