//! The configuration of one run, and the names it gives its clients.

use vstd::prelude::*;

verus! {

/// How many clients a run uses when nothing says otherwise.
pub const DEFAULT_CLIENTS: usize = 5;

/// How long a client waits for the echo of its last line when nothing says
/// otherwise, in milliseconds.
pub const DEFAULT_LINE_TIMEOUT: u64 = 1000;

/// The configuration of one run.
#[derive(Debug)]
pub struct Arguments {
    /// The server to connect to.
    pub server: String,
    /// The nickname that each client's own name begins with.
    pub nickname: String,
    /// The channel to join, without its leading hash sign.
    pub channel: String,
    /// How many clients to use.
    pub clients: usize,
    /// The nicknames of those who may command.
    pub owners: Vec<String>,
    /// How long a client waits for the echo of its last line, in
    /// milliseconds.
    pub line_timeout: u64,
}

/// The character for a digit below ten.
pub open spec fn digit(d: nat) -> char {
    if d == 0 {
        '0'
    } else if d == 1 {
        '1'
    } else if d == 2 {
        '2'
    } else if d == 3 {
        '3'
    } else if d == 4 {
        '4'
    } else if d == 5 {
        '5'
    } else if d == 6 {
        '6'
    } else if d == 7 {
        '7'
    } else if d == 8 {
        '8'
    } else {
        '9'
    }
}

/// A number in decimal digits, with no leading zero but for zero itself.
pub open spec fn decimal(n: nat) -> Seq<char>
    decreases n,
{
    if n < 10 {
        seq![digit(n)]
    } else {
        decimal(n / 10).push(digit(n % 10))
    }
}

/// The character for a digit below ten.
fn digit_char(d: usize) -> (c: char)
    requires
        d < 10,
    ensures
        c == digit(d as nat),
{
    if d == 0 {
        '0'
    } else if d == 1 {
        '1'
    } else if d == 2 {
        '2'
    } else if d == 3 {
        '3'
    } else if d == 4 {
        '4'
    } else if d == 5 {
        '5'
    } else if d == 6 {
        '6'
    } else if d == 7 {
        '7'
    } else if d == 8 {
        '8'
    } else {
        '9'
    }
}

/// Appends `n` in decimal digits.
fn push_decimal(s: &mut String, n: usize)
    ensures
        final(s)@ == old(s)@ + decimal(n as nat),
    decreases n,
{
    if n >= 10 {
        push_decimal(s, n / 10);
    }
    s.push(digit_char(n % 10));
}

impl Arguments {
    /// Whether a run can be made of the configuration: it has at least one
    /// client and at least one owner.
    pub open spec fn valid(&self) -> bool {
        self.clients >= 1 && self.owners@.len() >= 1
    }

    /// Whether a run can be made of the configuration.
    pub fn is_valid(&self) -> (r: bool)
        ensures
            r == self.valid(),
    {
        self.clients >= 1 && self.owners.len() >= 1
    }

    /// The name of the client with the given index: the nickname, and the
    /// index in decimal digits.
    pub fn nickname_of(&self, index: usize) -> (r: String)
        ensures
            r@ == self.nickname@ + decimal(index as nat),
    {
        let mut r = self.nickname.clone();
        push_decimal(&mut r, index);
        r
    }
}

} // verus!
