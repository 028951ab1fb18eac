//! Where the server listens, and who the client is.

use vstd::prelude::*;
use vstd::string::*;

verus! {

/// The address of the chat server.
#[derive(Debug)]
pub struct Config {
    pub host: String,
    pub port: u16,
}

/// What the client was started with.
#[derive(Debug)]
pub struct Args {
    /// The name to join under.
    pub username: String,
}

impl Default for Args {
    /// A client that was given no name joins as `anon`.
    fn default() -> (args: Self)
        ensures
            args.username@ == "anon"@,
    {
        Args { username: String::from_str("anon") }
    }
}

/// The character that stands for a digit.
pub open spec fn digit(d: nat) -> char
    recommends
        d < 10,
{
    "0123456789"@[d as int]
}

/// A number in decimal digits, without leading zeros.
pub open spec fn decimal(n: nat) -> Seq<char>
    decreases n,
{
    if n < 10 {
        seq![digit(n)]
    } else {
        decimal(n / 10).push(digit(n % 10))
    }
}

/// The text of one digit.
fn digit_text(d: u16) -> (text: &'static str)
    requires
        d < 10,
    ensures
        text@ == seq![digit(d as nat)],
{
    proof {
        reveal_strlit("0123456789");
    }
    let at = d as usize;
    let text = "0123456789".substring_char(at, at + 1);
    assert(text@ =~= seq![digit(d as nat)]);
    text
}

/// Writes `n` in decimal behind what `text` holds.
fn append_decimal(text: &mut String, n: u16)
    ensures
        final(text)@ == old(text)@ + decimal(n as nat),
    decreases n,
{
    if n >= 10 {
        append_decimal(text, n / 10);
    }
    text.append(digit_text(n % 10));
}

impl Config {
    /// The address to bind or to connect to: the host, a colon, and the port
    /// in decimal.
    pub fn address(&self) -> (address: String)
        ensures
            address@ == self.host@ + seq![':'] + decimal(self.port as nat),
    {
        proof {
            reveal_strlit(":");
        }
        let mut address = self.host.clone();
        address.append(":");
        append_decimal(&mut address, self.port);
        address
    }
}

} // verus!
