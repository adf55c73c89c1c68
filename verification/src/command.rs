use vstd::prelude::*;

use crate::response::{lemma_hex_pair_reads_back, token_byte};
use crate::text::push_char;

pub mod pids;

verus! {

/// Upper-case hexadecimal digit of a value below 16.
pub open spec fn hex_digit_spec(n: int) -> char {
    if n < 10 {
        (n + 48) as char
    } else {
        (n + 55) as char
    }
}

/// The two upper-case hex digits of a byte, most significant first.
pub open spec fn hex_pair(b: u8) -> Seq<char> {
    seq![hex_digit_spec(b as int / 16), hex_digit_spec(b as int % 16)]
}

fn hex_digit(n: u8) -> (c: char)
    requires
        n < 16,
    ensures
        c == hex_digit_spec(n as int),
{
    if n < 10 {
        (n + 48) as char
    } else {
        (n + 55) as char
    }
}

/// Represents a single OBD-II command composed of a *mode* byte and a *PID* byte.
#[derive(Debug, Clone, Copy, PartialEq, Eq, Structural)]
pub struct ObdCommand {
    /// OBD-II service / mode (e.g. `0x01` for "current data").
    pub mode: u8,
    /// Parameter identifier within the chosen mode.
    pub pid: u8,
}

impl ObdCommand {
    /// Create a new [`ObdCommand`].
    pub fn new(mode: u8, pid: u8) -> (cmd: Self)
        ensures
            cmd.mode == mode,
            cmd.pid == pid,
    {
        Self { mode, pid }
    }

    /// The four hex digits of the command: mode, then PID.
    pub open spec fn hex_code(self) -> Seq<char> {
        hex_pair(self.mode) + hex_pair(self.pid)
    }

    /// Convert the command to the ASCII string expected by the ELM327 adapter.
    ///
    /// The format is two upper-case hex digits for the mode, two for the PID,
    /// followed by a carriage-return (`\r`) which acts as the line terminator for
    /// the ELM327 protocol.
    pub fn to_command_string(&self) -> (s: String)
        ensures
            s@ == self.hex_code().push('\r'),
    {
        let mut s = self.to_display_string();
        push_char(&mut s, '\r');
        s
    }

    /// The command as text without the line terminator: two upper-case hex
    /// digits for the mode, then two for the PID (what `Display` shows).
    pub fn to_display_string(&self) -> (s: String)
        ensures
            s@ == self.hex_code(),
    {
        let mut s = String::new();
        push_hex_pair(&mut s, self.mode);
        push_hex_pair(&mut s, self.pid);
        s
    }
}

/// The four hex digits of a command read back, two by two, as its mode and
/// its PID.
pub proof fn lemma_hex_code_reads_back(cmd: ObdCommand)
    ensures
        token_byte(cmd.hex_code().subrange(0, 2)) == Some(cmd.mode),
        token_byte(cmd.hex_code().subrange(2, 4)) == Some(cmd.pid),
{
    lemma_hex_pair_reads_back(cmd.mode);
    lemma_hex_pair_reads_back(cmd.pid);
    assert(cmd.hex_code().subrange(0, 2) == hex_pair(cmd.mode));
    assert(cmd.hex_code().subrange(2, 4) == hex_pair(cmd.pid));
}

/// The four hex digits of a command are upper-case: each is `0`..`9` or
/// `A`..`F`, and their values, most significant first, give mode and PID.
pub proof fn lemma_hex_code_upper(cmd: ObdCommand)
    ensures
        cmd.hex_code().len() == 4,
        forall|i: int|
            0 <= i < 4 ==> ('0' <= #[trigger] cmd.hex_code()[i] <= '9') || ('A'
                <= cmd.hex_code()[i] <= 'F'),
        cmd.hex_code()[0] as int - (if cmd.hex_code()[0] <= '9' { 48int } else { 55int }) == cmd.mode / 16,
        cmd.hex_code()[1] as int - (if cmd.hex_code()[1] <= '9' { 48int } else { 55int }) == cmd.mode % 16,
        cmd.hex_code()[2] as int - (if cmd.hex_code()[2] <= '9' { 48int } else { 55int }) == cmd.pid / 16,
        cmd.hex_code()[3] as int - (if cmd.hex_code()[3] <= '9' { 48int } else { 55int }) == cmd.pid % 16,
{
}

pub(crate) fn push_hex_pair(s: &mut String, b: u8)
    ensures
        final(s)@ == old(s)@ + hex_pair(b),
{
    push_char(s, hex_digit(b / 16));
    push_char(s, hex_digit(b % 16));
}

} // verus!
