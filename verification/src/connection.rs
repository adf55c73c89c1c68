//! The decisions of an ELM327 session that do not touch the port: how a raw
//! reply is collected and cleaned, which initialisation commands are sent and
//! when a reply to one of them counts as a failure, and how the ranges of
//! supported PIDs are scanned.
use vstd::prelude::*;
use vstd::utf8::{decode_utf8, valid_utf8};

use crate::command::ObdCommand;
use crate::error::ObdError;
use crate::pid::{
    be_word, decode_supported_pids, lemma_mask_bit_of_bytes, lemma_supported_pids_upto, mask_bit,
    pids_fit, supported_pids,
};
use crate::response::contains_any;
use crate::text::{
    append_chars, append_str, ascii_uppercase, chars_of, contains_chars, is_white, line_pieces,
    plain_chars, push_char, split_lines, starts_with_chars, starts_with_seq, string_from_chars,
    trim, trim_chars, trim_end, trim_start, uppercase, uppercase_chars, views_of,
};

verus! {

/// Default baud rate used when opening the serial port.
pub const DEFAULT_BAUD_RATE: u32 = 38_400;

/// The ELM327 ready prompt character.
pub const ELM_PROMPT: u8 = 0x3e;

/// Maximum bytes kept from a single reply.
pub const READ_BUF_SIZE: usize = 256;

// ---------------------------------------------------------------------------
// Status lines
// ---------------------------------------------------------------------------

/// The beginnings of the progress lines that an adapter prints while it
/// looks for the vehicle's protocol.
pub open spec fn status_prefixes() -> Seq<Seq<char>> {
    seq!["SEARCHING"@, "BUS INIT"@, "TRYING"@, "AUTO"@]
}

/// `s` begins with some sequence of `prefixes`.
pub open spec fn starts_with_any(s: Seq<char>, prefixes: Seq<Seq<char>>) -> bool {
    exists|i: int| 0 <= i < prefixes.len() && starts_with_seq(s, #[trigger] prefixes[i])
}

fn status_prefix(i: usize) -> (p: &'static str)
    requires
        i < 4,
    ensures
        p@ == status_prefixes()[i as int],
{
    match i {
        0 => "SEARCHING",
        1 => "BUS INIT",
        2 => "TRYING",
        _ => "AUTO",
    }
}

fn starts_with_status(u: &[char]) -> (b: bool)
    ensures
        b == starts_with_any(u@, status_prefixes()),
{
    let mut i: usize = 0;
    while i < 4
        invariant
            i <= 4,
            forall|k: int| 0 <= k < i ==> !starts_with_seq(u@, #[trigger] status_prefixes()[k]),
        decreases 4 - i,
    {
        let p = chars_of(status_prefix(i));
        if starts_with_chars(u, p.as_slice()) {
            return true;
        }
        i = i + 1;
    }
    false
}

/// Whether an upper-case line begins like a status line.
pub fn has_status_prefix(upper: &str) -> (b: bool)
    ensures
        b == starts_with_any(upper@, status_prefixes()),
{
    let u = chars_of(upper);
    starts_with_status(u.as_slice())
}

/// Whether a line is a progress message of the adapter, compared without
/// regard to case.
pub fn is_status_message(line: &str) -> (b: bool)
    ensures
        b == starts_with_any(uppercase(line@), status_prefixes()),
        plain_chars(line@) ==> b == starts_with_any(ascii_uppercase(line@), status_prefixes()),
{
    let l = chars_of(line);
    let u = uppercase_chars(l.as_slice());
    starts_with_status(u.as_slice())
}

// ---------------------------------------------------------------------------
// Reply text
// ---------------------------------------------------------------------------

/// A line of a reply (lines end at a carriage return or a line feed, since
/// the adapter ends them with a carriage return once linefeeds are off) is kept, trimmed, when something remains after
/// trimming and it is no status line.
pub open spec fn keeps_line(line: Seq<char>) -> bool {
    trim(line).len() > 0 && !starts_with_any(uppercase(trim(line)), status_prefixes())
}

/// The kept lines, trimmed, in order.
pub open spec fn kept_lines(lines: Seq<Seq<char>>) -> Seq<Seq<char>>
    decreases lines.len(),
{
    if lines.len() == 0 {
        seq![]
    } else if keeps_line(lines.last()) {
        kept_lines(lines.drop_last()).push(trim(lines.last()))
    } else {
        kept_lines(lines.drop_last())
    }
}

/// The parts joined with single spaces between them.
pub open spec fn join_spaced(parts: Seq<Seq<char>>) -> Seq<char>
    decreases parts.len(),
{
    if parts.len() == 0 {
        seq![]
    } else if parts.len() == 1 {
        parts[0]
    } else {
        join_spaced(parts.drop_last()) + seq![' '] + parts.last()
    }
}

/// The reply that a decoded response text stands for: its lines trimmed,
/// empty lines and status lines left out, the rest joined with spaces.
pub open spec fn reply_of_text(text: Seq<char>) -> Seq<char> {
    join_spaced(kept_lines(line_pieces(text)))
}

/// Turns a decoded response text into the reply: the text split into lines
/// at every carriage return and line feed, every line trimmed, empty lines and
/// status lines dropped, the remaining lines joined with single spaces.
pub fn reply_from_text(text: &str) -> (s: String)
    ensures
        s@ == reply_of_text(text@),
{
    let cs = chars_of(text);
    let lines = split_lines(cs.as_slice());
    let ghost pieces = views_of(lines@);
    let mut out = String::new();
    let mut count: usize = 0;
    let mut i: usize = 0;
    while i < lines.len()
        invariant
            i <= lines@.len(),
            pieces == views_of(lines@),
            count == kept_lines(pieces.take(i as int)).len(),
            count <= i,
            out@ == join_spaced(kept_lines(pieces.take(i as int))),
        decreases lines@.len() - i,
    {
        assert(pieces.take(i + 1).drop_last() == pieces.take(i as int));
        assert(pieces.take(i + 1).last() == lines@[i as int]@);
        let t = trim_chars(lines[i].as_slice());
        let ghost kept = kept_lines(pieces.take(i as int));
        if t.len() > 0 {
            let ts = string_from_chars(t.as_slice());
            if !is_status_message(ts.as_str()) {
                let ghost before = out@;
                assert(kept.push(t@).drop_last() == kept);
                assert(kept.push(t@).last() == t@);
                if count > 0 {
                    push_char(&mut out, ' ');
                }
                append_chars(&mut out, t.as_slice());
                if count == 0 {
                    assert(kept.push(t@)[0] == t@);
                    assert(out@ == t@);
                } else {
                    assert(out@ == before + seq![' '] + t@);
                }
                count = count + 1;
            }
        }
        i = i + 1;
    }
    assert(pieces.take(lines@.len() as int) == pieces);
    out
}

proof fn lemma_trim_start_first(s: Seq<char>)
    ensures
        trim_start(s).len() <= s.len(),
        trim_start(s).len() > 0 ==> !is_white(trim_start(s)[0]),
        trim_start(s).len() > 0 ==> trim_start(s).last() == s.last(),
    decreases s.len(),
{
    if s.len() > 0 && is_white(s[0]) {
        lemma_trim_start_first(s.drop_first());
    }
}

proof fn lemma_trim_end_last(t: Seq<char>)
    ensures
        trim_end(t).len() <= t.len(),
        trim_end(t) == t.take(trim_end(t).len() as int),
        trim_end(t).len() > 0 ==> !is_white(trim_end(t).last()),
    decreases t.len(),
{
    if t.len() > 0 && is_white(t.last()) {
        lemma_trim_end_last(t.drop_last());
        assert(t.drop_last().take(trim_end(t).len() as int) == t.take(trim_end(t).len() as int));
    } else {
        assert(t.take(t.len() as int) == t);
    }
}

/// A trimmed sequence that is not empty begins and ends with a character
/// that is no whitespace.
proof fn lemma_trim_ends(s: Seq<char>)
    ensures
        trim(s).len() > 0 ==> !is_white(trim(s)[0]) && !is_white(trim(s).last()),
{
    lemma_trim_start_first(s);
    lemma_trim_end_last(trim_start(s));
    if trim(s).len() > 0 {
        assert(trim(s)[0] == trim_start(s)[0]);
    }
}

/// A sequence that begins and ends with a character that is no whitespace
/// is its own trimmed form.
proof fn lemma_trim_fixed(s: Seq<char>)
    requires
        s.len() > 0 ==> !is_white(s[0]) && !is_white(s.last()),
    ensures
        trim(s) == s,
{
}

proof fn lemma_join_ends(parts: Seq<Seq<char>>)
    requires
        forall|i: int| 0 <= i < parts.len() ==> #[trigger] parts[i].len() > 0,
    ensures
        parts.len() > 0 ==> join_spaced(parts).len() > 0 && join_spaced(parts)[0] == parts[0][0]
            && join_spaced(parts).last() == parts.last().last(),
    decreases parts.len(),
{
    if parts.len() > 1 {
        let prev = parts.drop_last();
        assert forall|i: int| 0 <= i < prev.len() implies #[trigger] prev[i].len() > 0 by {
            assert(prev[i] == parts[i]);
        }
        lemma_join_ends(prev);
        assert(parts.last() == parts[parts.len() - 1]);
    } else if parts.len() == 1 {
        assert(parts.last() == parts[0]);
    }
}

proof fn lemma_kept_lines_ends(lines: Seq<Seq<char>>)
    ensures
        forall|i: int|
            0 <= i < kept_lines(lines).len() ==> #[trigger] kept_lines(lines)[i].len() > 0
                && !is_white(kept_lines(lines)[i][0]) && !is_white(kept_lines(lines)[i].last()),
    decreases lines.len(),
{
    if lines.len() > 0 {
        let prev = kept_lines(lines.drop_last());
        lemma_kept_lines_ends(lines.drop_last());
        lemma_trim_ends(lines.last());
        let cur = kept_lines(lines);
        assert forall|i: int| 0 <= i < cur.len() implies #[trigger] cur[i].len() > 0 && !is_white(
            cur[i][0],
        ) && !is_white(cur[i].last()) by {
            if i < prev.len() {
                assert(cur[i] == prev[i]);
            } else {
                assert(cur[i] == trim(lines.last()));
            }
        }
    }
}

/// The reply is trimmed: it neither begins nor ends with whitespace.
pub proof fn lemma_reply_is_trimmed(text: Seq<char>)
    ensures
        trim(reply_of_text(text)) == reply_of_text(text),
{
    let parts = kept_lines(line_pieces(text));
    lemma_kept_lines_ends(line_pieces(text));
    lemma_join_ends(parts);
    if parts.len() > 0 {
        assert(parts[0].len() > 0);
        assert(parts.last() == parts[parts.len() - 1]);
    }
    lemma_trim_fixed(join_spaced(parts));
}

/// What `String::from_utf8_lossy` makes of a byte sequence.
pub uninterp spec fn lossy_utf8(bytes: Seq<u8>) -> Seq<char>;

/// `String::from_utf8_lossy`, made an owned `String`. Claimed of it: the result
/// is the name `lossy_utf8` of the bytes, and bytes that are valid UTF-8 decode
/// to their characters. Nothing is claimed of how invalid bytes are replaced.
#[verifier::external_body]
fn utf8_lossy(bytes: &[u8]) -> (s: String)
    ensures
        s@ == lossy_utf8(bytes@),
        valid_utf8(bytes@) ==> s@ == decode_utf8(bytes@),
{
    String::from_utf8_lossy(bytes).into_owned()
}

/// Turns the raw bytes of a reply into its text: decoded as UTF-8 (invalid
/// sequences replaced), then cleaned as [`reply_from_text`] does.
pub fn reply_from_bytes(raw: &[u8]) -> (s: String)
    ensures
        s@ == reply_of_text(lossy_utf8(raw@)),
        valid_utf8(raw@) ==> s@ == reply_of_text(decode_utf8(raw@)),
{
    let text = utf8_lossy(raw);
    reply_from_text(text.as_str())
}

} // verus!

verus! {

// ---------------------------------------------------------------------------
// Collecting a reply
// ---------------------------------------------------------------------------

/// One byte read from the port, applied to the bytes received so far and
/// whether reading has stopped: after the stop nothing changes; the prompt
/// stops reading and is not kept; any other byte is kept, and reading stops
/// once the buffer is full.
pub open spec fn feed_step(st: (Seq<u8>, bool), b: u8) -> (Seq<u8>, bool) {
    if st.1 {
        st
    } else if b == ELM_PROMPT {
        (st.0, true)
    } else {
        (st.0.push(b), st.0.len() + 1 >= READ_BUF_SIZE)
    }
}

/// The state after the bytes of `stream` were read one by one from the start.
pub open spec fn feed_all(stream: Seq<u8>) -> (Seq<u8>, bool)
    decreases stream.len(),
{
    if stream.len() == 0 {
        (seq![], false)
    } else {
        feed_step(feed_all(stream.drop_last()), stream.last())
    }
}

/// Collects the bytes of one reply as they are read from the port, up to the
/// ELM327 `>` prompt or until the buffer is full.
pub struct ResponseReader {
    bytes: Vec<u8>,
    finished: bool,
}

impl View for ResponseReader {
    type V = (Seq<u8>, bool);

    closed spec fn view(&self) -> (Seq<u8>, bool) {
        (self.bytes@, self.finished)
    }
}

impl ResponseReader {
    #[verifier::type_invariant]
    spec fn inv(self) -> bool {
        &&& self.bytes@.len() <= READ_BUF_SIZE
        &&& !self.finished ==> self.bytes@.len() < READ_BUF_SIZE
    }

    /// A reader that has received nothing.
    pub fn new() -> (r: Self)
        ensures
            r@ == (Seq::<u8>::empty(), false),
    {
        ResponseReader { bytes: Vec::new(), finished: false }
    }

    /// Takes one byte read from the port; returns whether reading must stop.
    pub fn feed(&mut self, b: u8) -> (stop: bool)
        ensures
            final(self)@ == feed_step(old(self)@, b),
            stop == final(self)@.1,
    {
        proof {
            use_type_invariant(&*self);
        }
        if self.finished {
            return true;
        }
        if b == ELM_PROMPT {
            self.finished = true;
            return true;
        }
        let mut bytes: Vec<u8> = Vec::new();
        std::mem::swap(&mut bytes, &mut self.bytes);
        bytes.push(b);
        let full = bytes.len() >= READ_BUF_SIZE;
        self.finished = full;
        self.bytes = bytes;
        full
    }

    /// Whether reading has stopped.
    pub fn is_finished(&self) -> (b: bool)
        ensures
            b == self@.1,
    {
        self.finished
    }

    /// The bytes received so far (without the prompt).
    pub fn bytes(&self) -> (b: &[u8])
        ensures
            b@ == self@.0,
    {
        self.bytes.as_slice()
    }

    /// The reply that the received bytes stand for (see [`reply_from_bytes`]).
    pub fn reply(&self) -> (s: String)
        ensures
            s@ == reply_of_text(lossy_utf8(self@.0)),
    {
        reply_from_bytes(self.bytes.as_slice())
    }
}

/// What reading a stream byte by byte keeps: a prefix of the stream, without
/// the prompt `>` (0x3e), of at most 256 bytes. Reading has stopped exactly when the
/// stream's next byte is the prompt or 256 bytes were kept; until then every
/// byte of the stream was kept.
pub proof fn lemma_feed_all(stream: Seq<u8>)
    ensures
        ({
            let (r, fin) = feed_all(stream);
            &&& r.len() <= 256
            &&& r.len() <= stream.len()
            &&& r == stream.take(r.len() as int)
            &&& forall|i: int| 0 <= i < r.len() ==> r[i] != 0x3eu8
            &&& !fin ==> r == stream && r.len() < 256
            &&& fin ==> (r.len() == 256 || (r.len() < stream.len() && stream[r.len() as int]
                == 0x3eu8))
        }),
    decreases stream.len(),
{
    if stream.len() > 0 {
        let prev = stream.drop_last();
        lemma_feed_all(prev);
        let (r0, f0) = feed_all(prev);
        let (r, fin) = feed_all(stream);
        if f0 {
            assert(r == r0);
            assert(prev.take(r0.len() as int) == stream.take(r0.len() as int));
            if r0.len() < prev.len() {
                assert(stream[r0.len() as int] == prev[r0.len() as int]);
            }
        } else if stream.last() == ELM_PROMPT {
            assert(r == r0);
            assert(r0 == prev);
            assert(stream.take(r0.len() as int) == prev);
        } else {
            assert(r == prev.push(stream.last()));
            assert(r == stream);
            assert(stream.take(stream.len() as int) == stream);
        }
    } else {
        assert(stream.take(0) == Seq::<u8>::empty());
    }
}

// ---------------------------------------------------------------------------
// Initialisation
// ---------------------------------------------------------------------------

/// The AT commands of the initialisation sequence, in the order they are sent:
/// reset (`ATZ`), echo off (`ATE0`), linefeeds off (`ATL0`), spaces off
/// (`ATS0`), headers off (`ATH0`).
pub open spec fn init_command_texts() -> Seq<Seq<char>> {
    seq!["ATZ\r"@, "ATE0\r"@, "ATL0\r"@, "ATS0\r"@, "ATH0\r"@]
}

/// The text of each string slice.
pub open spec fn str_views(v: Seq<&str>) -> Seq<Seq<char>> {
    v.map_values(|s: &str| s@)
}

/// The AT commands sent during initialisation, in order.
pub fn init_commands() -> (v: Vec<&'static str>)
    ensures
        str_views(v@) == init_command_texts(),
{
    let mut v: Vec<&'static str> = Vec::new();
    v.push("ATZ\r");
    v.push("ATE0\r");
    v.push("ATL0\r");
    v.push("ATS0\r");
    v.push("ATH0\r");
    assert(str_views(v@) == init_command_texts());
    v
}

/// The initialisation sequence is ATZ, ATE0, ATL0, ATS0, ATH0, each ended by
/// a carriage return, and nothing else; only the first (the reset) is
/// followed by the longer wait.
pub proof fn lemma_init_commands()
    ensures
        init_command_texts().len() == 5,
        init_command_texts()[0] == "ATZ\r"@,
        init_command_texts()[1] == "ATE0\r"@,
        init_command_texts()[2] == "ATL0\r"@,
        init_command_texts()[3] == "ATS0\r"@,
        init_command_texts()[4] == "ATH0\r"@,
{
}

/// The tokens by which a reply to an initialisation command reports failure.
pub open spec fn init_failure_tokens() -> Seq<Seq<char>> {
    seq!["ERROR"@, "UNABLE TO CONNECT"@, "BUS ERROR"@]
}

fn init_failure_token(i: usize) -> (t: &'static str)
    requires
        i < 3,
    ensures
        t@ == init_failure_tokens()[i as int],
{
    match i {
        0 => "ERROR",
        1 => "UNABLE TO CONNECT",
        _ => "BUS ERROR",
    }
}

fn contains_init_failure(u: &[char]) -> (b: bool)
    ensures
        b == contains_any(u@, init_failure_tokens()),
{
    let mut i: usize = 0;
    while i < 3
        invariant
            i <= 3,
            forall|k: int|
                0 <= k < i ==> !crate::text::contains_seq(u@, #[trigger] init_failure_tokens()[k]),
        decreases 3 - i,
    {
        let token = chars_of(init_failure_token(i));
        if contains_chars(u, token.as_slice()) {
            return true;
        }
        i = i + 1;
    }
    false
}

/// Whether an upper-case reply to an initialisation command reports failure.
pub fn has_init_failure(upper: &str) -> (b: bool)
    ensures
        b == contains_any(upper@, init_failure_tokens()),
{
    let u = chars_of(upper);
    contains_init_failure(u.as_slice())
}

/// The message of the error for a failed initialisation command.
pub open spec fn init_failure_message(cmd: Seq<char>, resp: Seq<char>) -> Seq<char> {
    "Command '"@ + cmd + "' failed with: "@ + resp
}

/// Decides whether the reply `resp` to the initialisation command `cmd`
/// reports failure, compared without regard to case.
pub fn check_init_response(cmd: &str, resp: &str) -> (res: Result<(), ObdError>)
    ensures
        match res {
            Ok(()) => !contains_any(uppercase(resp@), init_failure_tokens()),
            Err(ObdError::InitFailed(m)) => contains_any(uppercase(resp@), init_failure_tokens())
                && m@ == init_failure_message(cmd@, resp@),
            Err(_) => false,
        },
        plain_chars(resp@) ==> (res is Ok <==> !contains_any(
            ascii_uppercase(resp@),
            init_failure_tokens(),
        )),
{
    let r = chars_of(resp);
    let u = uppercase_chars(r.as_slice());
    if contains_init_failure(u.as_slice()) {
        let mut msg = String::from_str("Command '");
        append_str(&mut msg, cmd);
        append_str(&mut msg, "' failed with: ");
        append_str(&mut msg, resp);
        Err(ObdError::InitFailed(msg))
    } else {
        Ok(())
    }
}

/// The initialisation sequence as it runs: how many commands were answered
/// without failure, and whether a reply reported failure (which ends it).
pub struct InitSequence {
    answered: usize,
    failed: bool,
}

impl View for InitSequence {
    type V = (nat, bool);

    closed spec fn view(&self) -> (nat, bool) {
        (self.answered as nat, self.failed)
    }
}

/// The sequence is over: a reply reported failure, or every command was
/// answered.
pub open spec fn init_done(v: (nat, bool)) -> bool {
    v.1 || v.0 >= init_command_texts().len()
}

fn init_command(i: usize) -> (c: &'static str)
    requires
        i < 5,
    ensures
        c@ == init_command_texts()[i as int],
{
    match i {
        0 => "ATZ\r",
        1 => "ATE0\r",
        2 => "ATL0\r",
        3 => "ATS0\r",
        _ => "ATH0\r",
    }
}

impl InitSequence {
    #[verifier::type_invariant]
    spec fn inv(self) -> bool {
        self.answered <= 5
    }

    /// A sequence before its first command.
    pub fn new() -> (s: Self)
        ensures
            s@ == (0nat, false),
    {
        InitSequence { answered: 0, failed: false }
    }

    /// The command to send next, or `None` when the sequence is over.
    pub fn next_command(&self) -> (c: Option<&'static str>)
        ensures
            init_done(self@) ==> c is None,
            !init_done(self@) ==> (c matches Some(cmd) && cmd@ == init_command_texts()[self@.0 as int]),
    {
        proof {
            use_type_invariant(self);
        }
        if self.failed || self.answered >= 5 {
            None
        } else {
            Some(init_command(self.answered))
        }
    }

    /// Takes the reply to the command of [`Self::next_command`]: a reply that
    /// reports failure ends the sequence with the error of
    /// [`check_init_response`]; any other reply moves on to the next command.
    /// Once the sequence is over a reply changes nothing.
    pub fn on_response(&mut self, resp: &str) -> (res: Result<(), ObdError>)
        ensures
            init_done(old(self)@) ==> res is Ok && final(self)@ == old(self)@,
            !init_done(old(self)@) ==> match res {
                Ok(()) => {
                    &&& !contains_any(uppercase(resp@), init_failure_tokens())
                    &&& final(self)@ == (old(self)@.0 + 1, false)
                },
                Err(ObdError::InitFailed(m)) => {
                    &&& contains_any(uppercase(resp@), init_failure_tokens())
                    &&& m@ == init_failure_message(init_command_texts()[old(self)@.0 as int], resp@)
                    &&& final(self)@ == (old(self)@.0, true)
                },
                Err(_) => false,
            },
    {
        proof {
            use_type_invariant(&*self);
        }
        if self.failed || self.answered >= 5 {
            return Ok(());
        }
        let cmd = init_command(self.answered);
        match check_init_response(cmd, resp) {
            Ok(()) => {
                self.answered = self.answered + 1;
                Ok(())
            },
            Err(e) => {
                self.failed = true;
                Err(e)
            },
        }
    }

    /// Whether every command was answered without failure.
    pub fn succeeded(&self) -> (b: bool)
        ensures
            b == (!self@.1 && self@.0 == init_command_texts().len()),
    {
        proof {
            use_type_invariant(self);
        }
        !self.failed && self.answered == 5
    }
}

/// How long to wait, in milliseconds, after sending an initialisation
/// command: 200, and 500 more after a reset (`ATZ`).
pub fn init_delay_ms(cmd: &str) -> (ms: u64)
    ensures
        ms == if starts_with_seq(cmd@, "ATZ"@) {
            700u64
        } else {
            200u64
        },
{
    let c = chars_of(cmd);
    let z = chars_of("ATZ");
    if starts_with_chars(c.as_slice(), z.as_slice()) {
        700
    } else {
        200
    }
}

} // verus!

verus! {

// ---------------------------------------------------------------------------
// Scanning the supported PIDs
// ---------------------------------------------------------------------------

/// How many ranges of 32 PIDs the scan can query.
pub const PID_RANGE_COUNT: usize = 3;

/// The PID that asks for range `i` of supported PIDs: 0x00, 0x20, 0x40.
pub open spec fn range_base(i: int) -> u8 {
    (i * 32) as u8
}

/// The lists one after the other.
pub open spec fn concat_all(lists: Seq<Seq<u8>>) -> Seq<u8>
    decreases lists.len(),
{
    if lists.len() == 0 {
        seq![]
    } else {
        concat_all(lists.drop_last()) + lists.last()
    }
}

/// The PIDs are in strictly increasing order.
pub open spec fn strictly_increasing(s: Seq<u8>) -> bool {
    forall|j: int, k: int| 0 <= j < k < s.len() ==> s[j] < s[k]
}

/// A list that range `i` can give: strictly increasing PIDs after the range's
/// base, at most 32 after it.
pub open spec fn range_list(s: Seq<u8>, i: int) -> bool {
    &&& strictly_increasing(s)
    &&& forall|j: int| 0 <= j < s.len() ==> range_base(i) < #[trigger] s[j] <= range_base(i) + 32
}

proof fn lemma_concat_ranges(lists: Seq<Seq<u8>>)
    requires
        lists.len() <= PID_RANGE_COUNT,
        forall|i: int| 0 <= i < lists.len() ==> #[trigger] range_list(lists[i], i),
    ensures
        strictly_increasing(concat_all(lists)),
        forall|j: int| 0 <= j < concat_all(lists).len() ==> #[trigger] concat_all(lists)[j] <= 32 * lists.len(),
    decreases lists.len(),
{
    if lists.len() > 0 {
        let prev = lists.drop_last();
        assert forall|i: int| 0 <= i < prev.len() implies #[trigger] range_list(prev[i], i) by {
            assert(prev[i] == lists[i]);
        }
        lemma_concat_ranges(prev);
        let n = lists.len() - 1;
        assert(range_list(lists[n], n));
        assert(lists.last() == lists[n]);
        let a = concat_all(prev);
        let b = lists.last();
        assert(concat_all(lists) == a + b);
        assert forall|j: int, k: int| 0 <= j < k < (a + b).len() implies (a + b)[j] < (a + b)[k] by {
            if k < a.len() {
            } else if j >= a.len() {
                assert((a + b)[j] == b[j - a.len()]);
                assert((a + b)[k] == b[k - a.len()]);
            } else {
                assert((a + b)[k] == b[k - a.len()]);
                assert(b[k - a.len()] > range_base(n));
            }
        }
        assert forall|j: int| 0 <= j < (a + b).len() implies #[trigger] (a + b)[j] <= 32 * lists.len() by {
            if j >= a.len() {
                assert((a + b)[j] == b[j - a.len()]);
            }
        }
    }
}

/// The state of a scan, given the lists of the ranges answered so far, in
/// order: a range is only queried when the one before listed its base; the
/// scan stops when the last answered range does not list the next base.
pub open spec fn scan_consistent(lists: Seq<Seq<u8>>, stopped: bool) -> bool {
    &&& lists.len() <= PID_RANGE_COUNT
    &&& forall|i: int| 0 <= i < lists.len() ==> #[trigger] range_list(lists[i], i)
    &&& forall|i: int| 0 <= i < lists.len() - 1 ==> #[trigger] lists[i].contains(range_base(i + 1))
    &&& stopped <==> (lists.len() > 0 && !lists.last().contains(range_base(lists.len() as int)))
}

/// The scan of the supported PIDs, one range of 32 at a time: the range after
/// 0x00, then after 0x20, then after 0x40, going on only while the range just
/// answered lists the base of the next one.
pub struct SupportedPidScan {
    lists: Ghost<Seq<Seq<u8>>>,
    queried: usize,
    stopped: bool,
    found: Vec<u8>,
}

impl View for SupportedPidScan {
    /// The list of each range answered so far, and whether the scan stopped early.
    type V = (Seq<Seq<u8>>, bool);

    closed spec fn view(&self) -> (Seq<Seq<u8>>, bool) {
        (self.lists@, self.stopped)
    }
}

/// The scan is over: it stopped early, or every range was answered.
pub open spec fn scan_done(v: (Seq<Seq<u8>>, bool)) -> bool {
    v.1 || v.0.len() >= PID_RANGE_COUNT
}

fn contains_byte(v: &Vec<u8>, x: u8) -> (b: bool)
    ensures
        b == v@.contains(x),
{
    let mut i: usize = 0;
    while i < v.len()
        invariant
            i <= v@.len(),
            forall|k: int| 0 <= k < i ==> v@[k] != x,
        decreases v@.len() - i,
    {
        if v[i] == x {
            assert(v@[i as int] == x);
            return true;
        }
        i = i + 1;
    }
    false
}

impl SupportedPidScan {
    #[verifier::type_invariant]
    spec fn inv(self) -> bool {
        &&& self.queried == self.lists@.len()
        &&& self.found@ == concat_all(self.lists@)
        &&& scan_consistent(self.lists@, self.stopped)
    }

    /// A scan that has queried nothing yet.
    pub fn new() -> (s: Self)
        ensures
            s@ == (Seq::<Seq<u8>>::empty(), false),
    {
        SupportedPidScan {
            lists: Ghost(Seq::empty()),
            queried: 0,
            stopped: false,
            found: Vec::new(),
        }
    }

    /// The command to send next, or `None` when the scan is over.
    pub fn next_command(&self) -> (c: Option<ObdCommand>)
        ensures
            c == if scan_done(self@) {
                None
            } else {
                Some(ObdCommand { mode: 0x01, pid: range_base(self@.0.len() as int) })
            },
    {
        proof {
            use_type_invariant(self);
        }
        if self.stopped || self.queried >= PID_RANGE_COUNT {
            None
        } else {
            Some(ObdCommand { mode: 0x01, pid: self.base() })
        }
    }

    fn base(&self) -> (b: u8)
        requires
            self.queried < PID_RANGE_COUNT,
        ensures
            b == range_base(self.queried as int),
    {
        if self.queried == 0 {
            0x00
        } else if self.queried == 1 {
            0x20
        } else {
            0x40
        }
    }

    /// Takes the reply to the command of [`Self::next_command`]: its supported
    /// PIDs are added, and the scan stops unless they list the next range's base.
    /// A reply too short to hold a mask is an error and changes nothing; once
    /// the scan is over a reply changes nothing.
    pub fn on_response(&mut self, raw: &[u8]) -> (res: Result<(), ObdError>)
        ensures
            scan_done(old(self)@) ==> res is Ok && final(self)@ == old(self)@,
            !scan_done(old(self)@) ==> match res {
                Ok(()) => {
                    let n = old(self)@.0.len() as int;
                    let pids = supported_pids(be_word(raw@.skip(2)), range_base(n));
                    &&& raw@.len() >= 6
                    &&& final(self)@.0 == old(self)@.0.push(pids)
                    &&& final(self)@.1 == !pids.contains(range_base(n + 1))
                    &&& final(self)@.1 == !mask_bit(be_word(raw@.skip(2)), 31)
                    &&& final(self)@.1 == (raw@[5] & 1u8 == 0u8)
                },
                Err(ObdError::InsufficientData { expected, got }) => {
                    &&& raw@.len() < 6
                    &&& expected == 6
                    &&& got == raw@.len()
                    &&& final(self)@ == old(self)@
                },
                Err(_) => false,
            },
    {
        proof {
            use_type_invariant(&*self);
        }
        if self.stopped || self.queried >= PID_RANGE_COUNT {
            return Ok(());
        }
        let base = self.base();
        let ghost n = self.queried as int;
        proof {
            if raw@.len() >= 6 {
                assert(pids_fit(be_word(raw@.skip(2)), base));
            }
        }
        let mut pids = match decode_supported_pids(raw, base) {
            Ok(p) => p,
            Err(e) => {
                return Err(e);
            },
        };
        let has_next = contains_byte(&pids, base + 0x20);
        assert(base + 0x20 == range_base(n + 1));
        proof {
            lemma_supported_pids_upto(be_word(raw@.skip(2)), base, 32);
            lemma_mask_bit_of_bytes(raw@.skip(2), 3, 7);
            assert(raw@.skip(2)[3] == raw@[5]);
            let last = raw@[5];
            assert((last >> 0u8) & 1u8 == last & 1u8) by (bit_vector);
            assert(mask_bit(be_word(raw@.skip(2)), 31) <==> (last >> 0u8) & 1u8 == 1u8);
            assert(has_next <==> mask_bit(be_word(raw@.skip(2)), 31));
            assert((last & 1u8 == 1u8) <==> !(last & 1u8 == 0u8)) by (bit_vector);
        }
        let ghost old_lists = self.lists@;
        let ghost list = pids@;
        let ghost new_lists = old_lists.push(list);
        let mut found: Vec<u8> = self.found.clone();
        assert(found@ == self.found@);
        found.append(&mut pids);
        proof {
            assert(new_lists.drop_last() =~= old_lists);
            assert(new_lists.last() == list);
            assert(found@ == concat_all(new_lists));
            assert(range_list(list, n));
            assert forall|i: int| 0 <= i < new_lists.len() implies #[trigger] range_list(new_lists[i], i) by {
                if i < n {
                    assert(new_lists[i] == old_lists[i]);
                }
            }
            assert forall|i: int| 0 <= i < new_lists.len() - 1 implies #[trigger] new_lists[i].contains(
                range_base(i + 1),
            ) by {
                assert(new_lists[i] == old_lists[i]);
                if i == n - 1 {
                    assert(old_lists[i] == old_lists.last());
                }
            }
        }
        *self = SupportedPidScan {
            lists: Ghost(new_lists),
            queried: self.queried + 1,
            stopped: !has_next,
            found,
        };
        Ok(())
    }

    /// The supported PIDs found so far: the lists of the answered ranges one
    /// after the other. A range is only among them when the range before it
    /// listed its base, and at most three ranges are.
    pub fn supported(&self) -> (v: Vec<u8>)
        ensures
            v@ == concat_all(self@.0),
            scan_consistent(self@.0, self@.1),
            strictly_increasing(v@),
    {
        proof {
            use_type_invariant(self);
            lemma_concat_ranges(self@.0);
        }
        self.found.clone()
    }
}

} // verus!

verus! {

// ---------------------------------------------------------------------------
// Which lines are status lines, which init replies fail
// ---------------------------------------------------------------------------

/// A line counts as a status line exactly when its upper-case form begins
/// with SEARCHING, BUS INIT, TRYING or AUTO; every other non-empty line is
/// kept in the reply (so "BUS ERROR" or "BUS BUSY" stays).
pub proof fn lemma_status_lines(line: Seq<char>)
    ensures
        ({
            let u = uppercase(trim(line));
            keeps_line(line) <==> (trim(line).len() > 0 && !(starts_with_seq(u, "SEARCHING"@)
                || starts_with_seq(u, "BUS INIT"@) || starts_with_seq(u, "TRYING"@)
                || starts_with_seq(u, "AUTO"@)))
        }),
        forall|u: Seq<char>|
            #[trigger] starts_with_any(u, status_prefixes()) <==> (starts_with_seq(u, "SEARCHING"@)
                || starts_with_seq(u, "BUS INIT"@) || starts_with_seq(u, "TRYING"@)
                || starts_with_seq(u, "AUTO"@)),
{
    let p = status_prefixes();
    assert(p[0] == "SEARCHING"@);
    assert(p[1] == "BUS INIT"@);
    assert(p[2] == "TRYING"@);
    assert(p[3] == "AUTO"@);
    assert forall|u: Seq<char>|
        #[trigger] starts_with_any(u, status_prefixes()) <==> (starts_with_seq(u, "SEARCHING"@)
            || starts_with_seq(u, "BUS INIT"@) || starts_with_seq(u, "TRYING"@)
            || starts_with_seq(u, "AUTO"@)) by {
        if starts_with_seq(u, "SEARCHING"@) {
            assert(starts_with_seq(u, p[0]));
        }
        if starts_with_seq(u, "BUS INIT"@) {
            assert(starts_with_seq(u, p[1]));
        }
        if starts_with_seq(u, "TRYING"@) {
            assert(starts_with_seq(u, p[2]));
        }
        if starts_with_seq(u, "AUTO"@) {
            assert(starts_with_seq(u, p[3]));
        }
    }
}

/// A reply to an initialisation command fails exactly when its upper-case
/// form contains ERROR, UNABLE TO CONNECT or BUS ERROR.
pub proof fn lemma_init_failure_tokens(u: Seq<char>)
    ensures
        contains_any(u, init_failure_tokens()) <==> (crate::text::contains_seq(u, "ERROR"@)
            || crate::text::contains_seq(u, "UNABLE TO CONNECT"@) || crate::text::contains_seq(
            u,
            "BUS ERROR"@,
        )),
{
    let t = init_failure_tokens();
    assert(t[0] == "ERROR"@);
    assert(t[1] == "UNABLE TO CONNECT"@);
    assert(t[2] == "BUS ERROR"@);
}

/// Every reply that contains ERROR, in any case, makes an initialisation
/// command fail with the message naming the command and the reply; a reply
/// of ASCII text without ERROR, UNABLE TO CONNECT and BUS ERROR passes.
pub proof fn lemma_init_reply_outcome(cmd: Seq<char>, resp: Seq<char>, res: Result<(), ObdError>)
    requires
        plain_chars(resp),
        !contains_any(uppercase(resp), init_failure_tokens()) ==> res is Ok,
        contains_any(uppercase(resp), init_failure_tokens()) ==> (res matches Err(
            ObdError::InitFailed(m),
        ) && m@ == init_failure_message(cmd, resp)),
        res is Ok <==> !contains_any(ascii_uppercase(resp), init_failure_tokens()),
    ensures
        crate::text::contains_seq(ascii_uppercase(resp), "ERROR"@) ==> (res matches Err(
            ObdError::InitFailed(m),
        ) && m@ == "Command '"@ + cmd + "' failed with: "@ + resp),
        !(crate::text::contains_seq(ascii_uppercase(resp), "ERROR"@)
            || crate::text::contains_seq(ascii_uppercase(resp), "UNABLE TO CONNECT"@)
            || crate::text::contains_seq(ascii_uppercase(resp), "BUS ERROR"@)) ==> res is Ok,
{
    lemma_init_failure_tokens(ascii_uppercase(resp));
}

} // verus!
