//! Store commands as plain values: a command name followed by its
//! arguments, each a byte string.
use crate::decimal::{decimal, push_decimal};
use crate::codec::signed_decimal;
use vstd::prelude::*;
use vstd::string::*;
use vstd::utf8::*;

verus! {

/// The bytes of a text as the store receives it.
pub open spec fn text_bytes(s: Seq<char>) -> Seq<u8> {
    encode_utf8(s)
}

/// One command for the store.
pub struct Command {
    pub args: Vec<Vec<u8>>,
}

impl View for Command {
    type V = Seq<Seq<u8>>;

    open spec fn view(&self) -> Seq<Seq<u8>> {
        self.args@.map_values(|a: Vec<u8>| a@)
    }
}

/// The bytes of a text.
pub fn text_to_bytes(s: &str) -> (r: Vec<u8>)
    ensures
        r@ == text_bytes(s@),
{
    s.as_bytes_vec()
}

impl Command {
    /// A command with its name and no arguments yet.
    pub fn new(name: &str) -> (r: Command)
        ensures
            r@ == seq![text_bytes(name@)],
    {
        let mut args: Vec<Vec<u8>> = Vec::new();
        args.push(text_to_bytes(name));
        let r = Command { args };
        assert(r@ =~= seq![text_bytes(name@)]);
        r
    }

    /// Adds an argument given as bytes.
    pub fn arg_bytes(&mut self, a: Vec<u8>)
        ensures
            final(self)@ == old(self)@.push(a@),
    {
        self.args.push(a);
        assert(self@ =~= old(self)@.push(a@));
    }

    /// Adds a text argument.
    pub fn arg_str(&mut self, s: &str)
        ensures
            final(self)@ == old(self)@.push(text_bytes(s@)),
    {
        self.arg_bytes(text_to_bytes(s));
    }

    /// Adds an unsigned number argument, in decimal.
    pub fn arg_usize(&mut self, n: usize)
        ensures
            final(self)@ == old(self)@.push(text_bytes(decimal(n as nat))),
    {
        let mut s = String::new();
        push_decimal(&mut s, n as u64);
        assert(s@ =~= decimal(n as nat));
        self.arg_str(s.as_str());
    }

    /// Adds a signed number argument, in decimal.
    pub fn arg_i64(&mut self, n: i64)
        ensures
            final(self)@ == old(self)@.push(text_bytes(signed_decimal(n as int))),
    {
        let mut s = String::new();
        if n < 0 {
            s.append("-");
            push_decimal(&mut s, (-(n as i128)) as u64);
        } else {
            push_decimal(&mut s, n as u64);
        }
        assert(s@ =~= signed_decimal(n as int));
        self.arg_str(s.as_str());
    }
}

/// A command with a name and one text argument.
pub fn command1(name: &str, a: &str) -> (r: Command)
    ensures
        r@ == seq![text_bytes(name@), text_bytes(a@)],
{
    let mut c = Command::new(name);
    c.arg_str(a);
    assert(c@ =~= seq![text_bytes(name@), text_bytes(a@)]);
    c
}

} // verus!
