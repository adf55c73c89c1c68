//! Parsing of the ASCII hex responses that an ELM327 adapter sends.
use vstd::prelude::*;
use vstd::slice::slice_subrange;
use vstd::utf8::is_ascii_chars;

use crate::command::{hex_digit_spec, hex_pair};
use crate::error::ObdError;
use crate::text::{
    append_chars, append_str, ascii_uppercase, chars_of, contains_chars, contains_seq, occurs_at,
    plain_chars, split_words, string_from_chars, trim, trim_chars, trim_end, trim_start, uppercase,
    uppercase_chars, views_of, word_state, words,
};

verus! {

// ---------------------------------------------------------------------------
// Specification
// ---------------------------------------------------------------------------

/// Characters removed before anything else: the prompt, NUL and carriage return.
pub open spec fn is_noise(c: char) -> bool {
    c == '>' || c == '\0' || c == '\r'
}

/// The sequence without its noise characters, the others kept in order.
pub open spec fn without_noise(s: Seq<char>) -> Seq<char>
    decreases s.len(),
{
    if s.len() == 0 {
        s
    } else if is_noise(s.last()) {
        without_noise(s.drop_last())
    } else {
        without_noise(s.drop_last()).push(s.last())
    }
}

/// The tokens by which an ELM327 adapter reports an error instead of data.
pub open spec fn adapter_error_tokens() -> Seq<Seq<char>> {
    seq![
        "NO DATA"@,
        "ERROR"@,
        "UNABLE TO CONNECT"@,
        "BUS INIT"@,
        "BUS BUSY"@,
        "BUS ERROR"@,
        "CAN ERROR"@,
        "FB ERROR"@,
        "DATA ERROR"@,
        "BUFFER FULL"@,
        "STOPPED"@,
        "?"@,
    ]
}

/// Some token of `tokens` occurs in `s`.
pub open spec fn contains_any(s: Seq<char>, tokens: Seq<Seq<char>>) -> bool {
    exists|i: int| 0 <= i < tokens.len() && contains_seq(s, #[trigger] tokens[i])
}

/// A hexadecimal digit, in either case.
pub open spec fn is_hex_digit(c: char) -> bool {
    ('0' <= c && c <= '9') || ('a' <= c && c <= 'f') || ('A' <= c && c <= 'F')
}

/// The value of a hexadecimal digit.
pub open spec fn hex_digit_value(c: char) -> int {
    if '0' <= c && c <= '9' {
        c as int - 48
    } else if 'a' <= c && c <= 'f' {
        c as int - 87
    } else {
        c as int - 55
    }
}

/// The byte that a token denotes: exactly two hex digits, in either case,
/// the more significant first.
pub open spec fn token_byte(t: Seq<char>) -> Option<u8> {
    if t.len() == 2 && is_hex_digit(t[0]) && is_hex_digit(t[1]) {
        Some((hex_digit_value(t[0]) * 16 + hex_digit_value(t[1])) as u8)
    } else {
        None
    }
}

/// The bytes of all tokens, or the first token that is no byte.
pub open spec fn token_bytes(ws: Seq<Seq<char>>) -> Result<Seq<u8>, Seq<char>>
    decreases ws.len(),
{
    if ws.len() == 0 {
        Ok(seq![])
    } else {
        match token_byte(ws[0]) {
            None => Err(ws[0]),
            Some(b) => match token_bytes(ws.drop_first()) {
                Ok(rest) => Ok(seq![b] + rest),
                Err(t) => Err(t),
            },
        }
    }
}

/// The message of the error for a response with nothing in it.
pub open spec fn empty_response_message() -> Seq<char> {
    "Empty response from adapter"@
}

/// The message of the error for a token that is no hex byte.
pub open spec fn invalid_token_message(token: Seq<char>) -> Seq<char> {
    "Invalid hex token: '"@ + token + "'"@
}

/// What parsing returns for the trimmed response `t` whose upper-case form is `u`:
/// an adapter error when `u` holds an error token, a parse error when `t` is empty
/// or holds a token that is no hex byte, and the bytes of its tokens otherwise.
pub open spec fn parsed_as(res: Result<Vec<u8>, ObdError>, t: Seq<char>, u: Seq<char>) -> bool {
    if contains_any(u, adapter_error_tokens()) {
        res matches Err(ObdError::AdapterError(m)) && m@ == t
    } else if t.len() == 0 {
        res matches Err(ObdError::Parse(m)) && m@ == empty_response_message()
    } else {
        match token_bytes(words(t)) {
            Ok(bytes) => res matches Ok(v) && v@ == bytes,
            Err(tok) => res matches Err(ObdError::Parse(m)) && m@ == invalid_token_message(tok),
        }
    }
}

/// The response text that parsing works on: noise removed, then trimmed.
pub open spec fn cleaned_response(input: Seq<char>) -> Seq<char> {
    trim(without_noise(input))
}

proof fn lemma_without_noise_plain(s: Seq<char>)
    requires
        plain_chars(s),
    ensures
        plain_chars(without_noise(s)),
    decreases s.len(),
{
    if s.len() > 0 {
        assert(plain_chars(s.drop_last()));
        lemma_without_noise_plain(s.drop_last());
    }
}

proof fn lemma_trim_plain(s: Seq<char>)
    requires
        plain_chars(s),
    ensures
        plain_chars(trim(s)),
{
    lemma_trim_start_plain(s);
    lemma_trim_end_plain(trim_start(s));
}

proof fn lemma_trim_start_plain(s: Seq<char>)
    requires
        plain_chars(s),
    ensures
        plain_chars(trim_start(s)),
    decreases s.len(),
{
    if s.len() > 0 {
        assert(plain_chars(s.drop_first()));
        lemma_trim_start_plain(s.drop_first());
    }
}

proof fn lemma_trim_end_plain(s: Seq<char>)
    requires
        plain_chars(s),
    ensures
        plain_chars(trim_end(s)),
    decreases s.len(),
{
    if s.len() > 0 {
        assert(plain_chars(s.drop_last()));
        lemma_trim_end_plain(s.drop_last());
    }
}

// ---------------------------------------------------------------------------
// Implementation
// ---------------------------------------------------------------------------

fn remove_noise(v: &[char]) -> (r: Vec<char>)
    ensures
        r@ == without_noise(v@),
{
    let ghost s = v@;
    let mut r: Vec<char> = Vec::new();
    let mut i: usize = 0;
    while i < v.len()
        invariant
            i <= s.len(),
            s == v@,
            r@ == without_noise(s.take(i as int)),
        decreases s.len() - i,
    {
        let c = v[i];
        assert(s.take(i + 1).drop_last() == s.take(i as int));
        if !(c == '>' || c == '\0' || c == '\r') {
            r.push(c);
        }
        i = i + 1;
    }
    assert(s.take(s.len() as int) == s);
    r
}

fn adapter_error_token(i: usize) -> (t: &'static str)
    requires
        i < 12,
    ensures
        t@ == adapter_error_tokens()[i as int],
{
    match i {
        0 => "NO DATA",
        1 => "ERROR",
        2 => "UNABLE TO CONNECT",
        3 => "BUS INIT",
        4 => "BUS BUSY",
        5 => "BUS ERROR",
        6 => "CAN ERROR",
        7 => "FB ERROR",
        8 => "DATA ERROR",
        9 => "BUFFER FULL",
        10 => "STOPPED",
        _ => "?",
    }
}

fn has_adapter_error(u: &[char]) -> (b: bool)
    ensures
        b == contains_any(u@, adapter_error_tokens()),
{
    let mut i: usize = 0;
    while i < 12
        invariant
            i <= 12,
            forall|k: int| 0 <= k < i ==> !contains_seq(u@, #[trigger] adapter_error_tokens()[k]),
        decreases 12 - i,
    {
        let token = chars_of(adapter_error_token(i));
        if contains_chars(u, token.as_slice()) {
            return true;
        }
        i = i + 1;
    }
    false
}

fn hex_value(c: char) -> (r: Option<u32>)
    ensures
        r is Some <==> is_hex_digit(c),
        r matches Some(v) ==> v as int == hex_digit_value(c) && v < 16,
{
    if '0' <= c && c <= '9' {
        Some(c as u32 - 48)
    } else if 'a' <= c && c <= 'f' {
        Some(c as u32 - 87)
    } else if 'A' <= c && c <= 'F' {
        Some(c as u32 - 55)
    } else {
        None
    }
}

/// Reads one token as a hex byte: it must be exactly two hex digits.
pub fn parse_hex_token(t: &[char]) -> (r: Option<u8>)
    ensures
        r == token_byte(t@),
{
    if t.len() != 2 {
        return None;
    }
    match (hex_value(t[0]), hex_value(t[1])) {
        (Some(hi), Some(lo)) => Some((hi * 16 + lo) as u8),
        _ => None,
    }
}

fn parse_tokens(ws: &Vec<Vec<char>>) -> (r: Result<Vec<u8>, Vec<char>>)
    ensures
        match r {
            Ok(v) => token_bytes(views_of(ws@)) == Ok::<Seq<u8>, Seq<char>>(v@),
            Err(t) => token_bytes(views_of(ws@)) == Err::<Seq<u8>, Seq<char>>(t@),
        },
{
    let ghost all = views_of(ws@);
    let mut out: Vec<u8> = Vec::new();
    let mut i: usize = 0;
    assert(all.skip(0) == all);
    while i < ws.len()
        invariant
            i <= ws@.len(),
            all == views_of(ws@),
            token_bytes(all) == match token_bytes(all.skip(i as int)) {
                Ok(rest) => Ok(out@ + rest),
                Err(t) => Err::<Seq<u8>, Seq<char>>(t),
            },
        decreases ws@.len() - i,
    {
        let ghost tail = all.skip(i as int);
        assert(tail[0] == ws@[i as int]@);
        assert(tail.drop_first() == all.skip(i + 1));
        match parse_hex_token(ws[i].as_slice()) {
            None => {
                let bad = ws[i].clone();
                return Err(bad);
            },
            Some(b) => {
                let ghost before = out@;
                out.push(b);
                assert forall|rest: Seq<u8>| before + (seq![b] + rest) == out@ + rest by {
                    assert(before + (seq![b] + rest) =~= out@ + rest);
                }
            },
        }
        i = i + 1;
    }
    assert(all.skip(i as int) =~= Seq::<Seq<char>>::empty());
    assert(out@ + Seq::<u8>::empty() == out@);
    Ok(out)
}

fn parse_trimmed(t: &[char], u: &[char]) -> (res: Result<Vec<u8>, ObdError>)
    ensures
        parsed_as(res, t@, u@),
{
    if has_adapter_error(u) {
        return Err(ObdError::AdapterError(string_from_chars(t)));
    }
    if t.len() == 0 {
        return Err(ObdError::Parse(String::from_str("Empty response from adapter")));
    }
    let ws = split_words(t);
    match parse_tokens(&ws) {
        Ok(v) => Ok(v),
        Err(bad) => {
            let mut msg = String::from_str("Invalid hex token: '");
            append_chars(&mut msg, bad.as_slice());
            append_str(&mut msg, "'");
            Err(ObdError::Parse(msg))
        },
    }
}

/// Parse a response that has already been cleaned of noise and trimmed,
/// given also its upper-case form (which decides whether it reports an
/// adapter error).
pub fn parse_trimmed_response(trimmed: &str, upper: &str) -> (res: Result<Vec<u8>, ObdError>)
    ensures
        parsed_as(res, trimmed@, upper@),
{
    let t = chars_of(trimmed);
    let u = chars_of(upper);
    parse_trimmed(t.as_slice(), u.as_slice())
}

/// Parse a space-separated ASCII hex string returned by the ELM327 adapter
/// into a `Vec<u8>`.
///
/// The function:
/// 1. Strips the ELM327 prompt character (`>`), whitespace, and null bytes.
/// 2. Checks for known adapter-error tokens and returns [`ObdError::AdapterError`].
/// 3. Splits on whitespace and parses each token as a two-digit hex byte;
///    a token of any other form is a [`ObdError::Parse`] error.
pub fn parse_hex_bytes(input: &str) -> (res: Result<Vec<u8>, ObdError>)
    ensures
        parsed_as(res, cleaned_response(input@), uppercase(cleaned_response(input@))),
        plain_chars(input@) ==> parsed_as(
            res,
            cleaned_response(input@),
            ascii_uppercase(cleaned_response(input@)),
        ),
{
    let cs = chars_of(input);
    let kept = remove_noise(cs.as_slice());
    let t = trim_chars(kept.as_slice());
    proof {
        if plain_chars(cs@) {
            lemma_without_noise_plain(cs@);
            lemma_trim_plain(kept@);
        }
    }
    let u = uppercase_chars(t.as_slice());
    parse_trimmed(t.as_slice(), u.as_slice())
}

/// Strip the mode/pid echo bytes from an OBD response and return only the
/// data bytes (byte index 2 onwards).
///
/// # Errors
///
/// Returns [`ObdError::InsufficientData`] if the slice has fewer than
/// `min_data_bytes + 2` bytes.
pub fn extract_data_bytes(raw: &[u8], min_data_bytes: usize) -> (res: Result<&[u8], ObdError>)
    requires
        min_data_bytes <= usize::MAX - 2,
    ensures
        match res {
            Ok(data) => raw@.len() >= min_data_bytes + 2 && data@ == raw@.skip(2),
            Err(ObdError::InsufficientData { expected, got }) => raw@.len() < min_data_bytes + 2
                && expected == min_data_bytes + 2 && got == raw@.len(),
            Err(_) => false,
        },
{
    let required = min_data_bytes + 2;
    if raw.len() < required {
        return Err(ObdError::InsufficientData { expected: required, got: raw.len() });
    }
    Ok(slice_subrange(raw, 2, raw.len()))
}

} // verus!

verus! {

// ---------------------------------------------------------------------------
// Hex dumps read back
// ---------------------------------------------------------------------------

/// The hex dump of `bytes`: each byte as two upper-case hex digits, the bytes
/// separated by single spaces (the form of an adapter's data response).
pub open spec fn hex_dump(bytes: Seq<u8>) -> Seq<char>
    decreases bytes.len(),
{
    if bytes.len() == 0 {
        seq![]
    } else if bytes.len() == 1 {
        hex_pair(bytes[0])
    } else {
        hex_dump(bytes.drop_last()) + seq![' '] + hex_pair(bytes.last())
    }
}

/// A character that a hex dump may hold.
pub open spec fn is_dump_char(c: char) -> bool {
    ('0' <= c && c <= '9') || ('A' <= c && c <= 'F') || c == ' '
}

proof fn lemma_hex_digit(n: int)
    requires
        0 <= n < 16,
    ensures
        is_hex_digit(hex_digit_spec(n)),
        hex_digit_value(hex_digit_spec(n)) == n,
        is_dump_char(hex_digit_spec(n)),
        hex_digit_spec(n) != ' ',
{
}

/// The two hex digits of a byte read back as that byte.
pub proof fn lemma_hex_pair_reads_back(b: u8)
    ensures
        token_byte(hex_pair(b)) == Some(b),
{
    let p = hex_pair(b);
    lemma_hex_digit(b as int / 16);
    lemma_hex_digit(b as int % 16);
    assert(hex_digit_value(p[0]) * 16 + hex_digit_value(p[1]) == b as int);
}

proof fn lemma_dump_chars(bytes: Seq<u8>)
    requires
        bytes.len() > 0,
    ensures
        forall|i: int| 0 <= i < hex_dump(bytes).len() ==> is_dump_char(#[trigger] hex_dump(bytes)[i]),
        hex_dump(bytes).len() > 0,
        is_hex_digit(hex_dump(bytes)[0]),
        is_hex_digit(hex_dump(bytes).last()),
    decreases bytes.len(),
{
    let p = hex_pair(bytes.last());
    lemma_hex_digit(bytes.last() as int / 16);
    lemma_hex_digit(bytes.last() as int % 16);
    if bytes.len() > 1 {
        lemma_dump_chars(bytes.drop_last());
        lemma_hex_digit(bytes[0] as int / 16);
    } else {
        lemma_hex_digit(bytes[0] as int / 16);
    }
}

proof fn lemma_no_noise(s: Seq<char>)
    requires
        forall|i: int| 0 <= i < s.len() ==> !is_noise(#[trigger] s[i]),
    ensures
        without_noise(s) == s,
    decreases s.len(),
{
    if s.len() > 0 {
        lemma_no_noise(s.drop_last());
        assert(s.drop_last().push(s.last()) == s);
    }
}

proof fn lemma_token_absent(d: Seq<char>, tok: Seq<char>, k: int)
    requires
        forall|i: int| 0 <= i < d.len() ==> is_dump_char(#[trigger] d[i]),
        0 <= k < tok.len(),
        !is_dump_char(tok[k]),
    ensures
        !contains_seq(d, tok),
{
    assert forall|i: int| !occurs_at(d, tok, i) by {
        if occurs_at(d, tok, i) {
            assert(d.subrange(i, i + tok.len())[k] == d[i + k]);
        }
    }
}

proof fn lemma_dump_has_no_error_token(d: Seq<char>)
    requires
        forall|i: int| 0 <= i < d.len() ==> is_dump_char(#[trigger] d[i]),
    ensures
        !contains_any(d, adapter_error_tokens()),
{
    reveal_strlit("NO DATA");
    reveal_strlit("ERROR");
    reveal_strlit("UNABLE TO CONNECT");
    reveal_strlit("BUS INIT");
    reveal_strlit("BUS BUSY");
    reveal_strlit("BUS ERROR");
    reveal_strlit("CAN ERROR");
    reveal_strlit("FB ERROR");
    reveal_strlit("DATA ERROR");
    reveal_strlit("BUFFER FULL");
    reveal_strlit("STOPPED");
    reveal_strlit("?");
    let toks = adapter_error_tokens();
    lemma_token_absent(d, toks[0], 0);
    lemma_token_absent(d, toks[1], 1);
    lemma_token_absent(d, toks[2], 0);
    lemma_token_absent(d, toks[3], 1);
    lemma_token_absent(d, toks[4], 1);
    lemma_token_absent(d, toks[5], 1);
    lemma_token_absent(d, toks[6], 2);
    lemma_token_absent(d, toks[7], 4);
    lemma_token_absent(d, toks[8], 2);
    lemma_token_absent(d, toks[9], 1);
    lemma_token_absent(d, toks[10], 0);
    lemma_token_absent(d, toks[11], 0);
    assert forall|i: int| 0 <= i < toks.len() implies !contains_seq(d, #[trigger] toks[i]) by {
    }
}

proof fn lemma_dump_word_state(bytes: Seq<u8>)
    requires
        bytes.len() > 0,
    ensures
        word_state(hex_dump(bytes)) == (
            bytes.drop_last().map_values(|b: u8| hex_pair(b)),
            hex_pair(bytes.last()),
        ),
    decreases bytes.len(),
{
    let p = hex_pair(bytes.last());
    lemma_hex_digit(bytes.last() as int / 16);
    lemma_hex_digit(bytes.last() as int % 16);
    if bytes.len() == 1 {
        let d = hex_dump(bytes);
        assert(d == p);
        assert(p.drop_last() == seq![p[0]]);
        assert(seq![p[0]].drop_last() == Seq::<char>::empty());
        assert(word_state(Seq::<char>::empty()) == (Seq::<Seq<char>>::empty(), Seq::<char>::empty()));
        assert(seq![p[0]].last() == p[0]);
        assert(Seq::<char>::empty().push(p[0]) == seq![p[0]]);
        assert(word_state(seq![p[0]]) == (Seq::<Seq<char>>::empty(), seq![p[0]]));
        assert(seq![p[0]].push(p[1]) == p);
        assert(p.last() == p[1]);
        assert(word_state(p) == (Seq::<Seq<char>>::empty(), p));
        assert(bytes.drop_last().map_values(|b: u8| hex_pair(b)) == Seq::<Seq<char>>::empty());
    } else {
        let prev = bytes.drop_last();
        let dd = hex_dump(prev);
        lemma_dump_word_state(prev);
        lemma_hex_digit(prev.last() as int / 16);
        let y = dd + seq![' '];
        let x = y.push(p[0]);
        let d = hex_dump(bytes);
        assert(d == x.push(p[1]));
        assert(d.drop_last() == x);
        assert(x.drop_last() == y);
        assert(y.drop_last() == dd);
        assert(prev.drop_last().map_values(|b: u8| hex_pair(b)).push(hex_pair(prev.last()))
            == prev.map_values(|b: u8| hex_pair(b)));
        assert(word_state(y) == (prev.map_values(|b: u8| hex_pair(b)), Seq::<char>::empty()));
        assert(seq![p[0]].push(p[1]) == p);
        assert(Seq::<char>::empty().push(p[0]) == seq![p[0]]);
        assert(y.last() == ' ');
        assert(x.last() == p[0]);
        assert(d.last() == p[1]);
        assert(word_state(x) == (prev.map_values(|b: u8| hex_pair(b)), seq![p[0]]));
        assert(word_state(d) == (prev.map_values(|b: u8| hex_pair(b)), p));
    }
}

proof fn lemma_pairs_read_back(bytes: Seq<u8>)
    ensures
        token_bytes(bytes.map_values(|b: u8| hex_pair(b))) == Ok::<Seq<u8>, Seq<char>>(bytes),
    decreases bytes.len(),
{
    let ws = bytes.map_values(|b: u8| hex_pair(b));
    if bytes.len() > 0 {
        lemma_hex_pair_reads_back(bytes[0]);
        assert(ws.drop_first() == bytes.drop_first().map_values(|b: u8| hex_pair(b)));
        lemma_pairs_read_back(bytes.drop_first());
        assert(seq![bytes[0]] + bytes.drop_first() == bytes);
    } else {
        assert(ws.len() == 0);
        assert(bytes == Seq::<u8>::empty());
    }
}

/// Parsing reads back every non-empty hex dump: a response that lists bytes as
/// two upper-case hex digits each, separated by single spaces, is ASCII and
/// parses to exactly those bytes.
pub proof fn lemma_hex_dump_parses_back(bytes: Seq<u8>)
    requires
        bytes.len() > 0,
    ensures
        is_ascii_chars(hex_dump(bytes)),
        plain_chars(hex_dump(bytes)),
        forall|res: Result<Vec<u8>, ObdError>|
            #[trigger] parsed_as(
                res,
                cleaned_response(hex_dump(bytes)),
                ascii_uppercase(cleaned_response(hex_dump(bytes))),
            ) ==> (res matches Ok(v) && v@ == bytes),
{
    let d = hex_dump(bytes);
    lemma_dump_chars(bytes);
    lemma_no_noise(d);
    assert(trim_start(d) == d);
    assert(trim_end(d) == d);
    assert(cleaned_response(d) == d);
    assert(ascii_uppercase(d) == d);
    lemma_dump_has_no_error_token(d);
    lemma_dump_word_state(bytes);
    assert(bytes.drop_last().map_values(|b: u8| hex_pair(b)).push(hex_pair(bytes.last()))
        == bytes.map_values(|b: u8| hex_pair(b)));
    assert(words(d) == bytes.map_values(|b: u8| hex_pair(b)));
    lemma_pairs_read_back(bytes);
}

} // verus!

verus! {

// ---------------------------------------------------------------------------
// What parsing removes and what it reports
// ---------------------------------------------------------------------------

/// The characters removed before parsing are exactly the prompt `>`, NUL and
/// carriage return; every other character is kept, in order.
pub proof fn lemma_noise_is_prompt_nul_cr(s: Seq<char>)
    ensures
        forall|c: char| is_noise(c) <==> (c == '>' || c == '\0' || c == '\r'),
        (forall|i: int| 0 <= i < s.len() ==> !(s[i] == '>' || s[i] == '\0' || s[i] == '\r'))
            ==> without_noise(s) == s,
        forall|i: int|
            0 <= i < without_noise(s).len() ==> !(without_noise(s)[i] == '>' || without_noise(s)[i]
                == '\0' || without_noise(s)[i] == '\r'),
    decreases s.len(),
{
    if s.len() > 0 {
        lemma_noise_is_prompt_nul_cr(s.drop_last());
        let p = without_noise(s.drop_last());
        if !is_noise(s.last()) {
            assert forall|i: int| 0 <= i < p.push(s.last()).len() implies !(p.push(s.last())[i] == '>'
                || p.push(s.last())[i] == '\0' || p.push(s.last())[i] == '\r') by {
                if i < p.len() {
                    assert(p.push(s.last())[i] == p[i]);
                }
            }
        }
        if forall|i: int| 0 <= i < s.len() ==> !(s[i] == '>' || s[i] == '\0' || s[i] == '\r') {
            assert forall|i: int| 0 <= i < s.drop_last().len() implies !(s.drop_last()[i] == '>'
                || s.drop_last()[i] == '\0' || s.drop_last()[i] == '\r') by {
                assert(s.drop_last()[i] == s[i]);
            }
            assert(s.drop_last().push(s.last()) == s);
        }
    }
}

/// The adapter error tokens are exactly NO DATA, ERROR, UNABLE TO CONNECT,
/// BUS INIT, BUS BUSY, BUS ERROR, CAN ERROR, FB ERROR, DATA ERROR, BUFFER
/// FULL, STOPPED and `?`: an upper-case text holds one of them exactly when
/// it contains one of these words.
pub proof fn lemma_adapter_error_tokens(u: Seq<char>)
    ensures
        contains_any(u, adapter_error_tokens()) <==> (contains_seq(u, "NO DATA"@) || contains_seq(
            u,
            "ERROR"@,
        ) || contains_seq(u, "UNABLE TO CONNECT"@) || contains_seq(u, "BUS INIT"@) || contains_seq(
            u,
            "BUS BUSY"@,
        ) || contains_seq(u, "BUS ERROR"@) || contains_seq(u, "CAN ERROR"@) || contains_seq(
            u,
            "FB ERROR"@,
        ) || contains_seq(u, "DATA ERROR"@) || contains_seq(u, "BUFFER FULL"@) || contains_seq(
            u,
            "STOPPED"@,
        ) || contains_seq(u, "?"@)),
{
    let t = adapter_error_tokens();
    assert(t[0] == "NO DATA"@);
    assert(t[1] == "ERROR"@);
    assert(t[2] == "UNABLE TO CONNECT"@);
    assert(t[3] == "BUS INIT"@);
    assert(t[4] == "BUS BUSY"@);
    assert(t[5] == "BUS ERROR"@);
    assert(t[6] == "CAN ERROR"@);
    assert(t[7] == "FB ERROR"@);
    assert(t[8] == "DATA ERROR"@);
    assert(t[9] == "BUFFER FULL"@);
    assert(t[10] == "STOPPED"@);
    assert(t[11] == "?"@);
}

/// A reply that holds no `>`, NUL or carriage return and whose upper-case
/// text contains UNABLE TO CONNECT, NO DATA or any other adapter error word is
/// an adapter error that carries the reply as written, trimmed.
pub proof fn lemma_adapter_error_reply(s: Seq<char>, res: Result<Vec<u8>, ObdError>)
    requires
        forall|i: int| 0 <= i < s.len() ==> !(s[i] == '>' || s[i] == '\0' || s[i] == '\r'),
        ({
            let u = ascii_uppercase(trim(s));
            contains_seq(u, "NO DATA"@) || contains_seq(u, "ERROR"@) || contains_seq(
                u,
                "UNABLE TO CONNECT"@,
            ) || contains_seq(u, "BUS INIT"@) || contains_seq(u, "BUS BUSY"@) || contains_seq(
                u,
                "BUS ERROR"@,
            ) || contains_seq(u, "CAN ERROR"@) || contains_seq(u, "FB ERROR"@) || contains_seq(
                u,
                "DATA ERROR"@,
            ) || contains_seq(u, "BUFFER FULL"@) || contains_seq(u, "STOPPED"@) || contains_seq(
                u,
                "?"@,
            )
        }),
        parsed_as(res, cleaned_response(s), ascii_uppercase(cleaned_response(s))),
    ensures
        res matches Err(ObdError::AdapterError(m)) && m@ == trim(s),
{
    lemma_noise_is_prompt_nul_cr(s);
    assert(cleaned_response(s) == trim(s));
    lemma_adapter_error_tokens(ascii_uppercase(trim(s)));
}

} // verus!
