//! Character-level helpers shared by the response parsers: whitespace as
//! Rust's `char::is_whitespace` defines it, trimming, splitting into words and
//! lines, substring search, and the upper-case mapping of the standard library.
use vstd::prelude::*;

verus! {

// ---------------------------------------------------------------------------
// Strings and character vectors
// ---------------------------------------------------------------------------

/// Collects the characters of a string slice into a vector.
pub fn chars_of(s: &str) -> (v: Vec<char>)
    ensures
        v@ == s@,
{
    let mut v: Vec<char> = Vec::new();
    for c in it: s.chars()
        invariant
            v@ == it.seq().take(it.index() as int),
    {
        v.push(c);
    }
    v
}

/// `String::push`: appends one character.
#[verifier::external_body]
pub(crate) fn push_char(s: &mut String, c: char)
    ensures
        final(s)@ == old(s)@.push(c),
{
    s.push(c);
}

/// Builds a `String` holding exactly the given characters.
pub fn string_from_chars(v: &[char]) -> (s: String)
    ensures
        s@ == v@,
{
    let mut s = String::new();
    let mut i: usize = 0;
    while i < v.len()
        invariant
            i <= v@.len(),
            s@ == v@.take(i as int),
        decreases v@.len() - i,
    {
        push_char(&mut s, v[i]);
        assert(v@.take(i + 1) == v@.take(i as int).push(v@[i as int]));
        i = i + 1;
    }
    assert(v@.take(v@.len() as int) == v@);
    s
}

/// Appends the characters of `tail` to `s`.
pub(crate) fn append_chars(s: &mut String, tail: &[char])
    ensures
        final(s)@ == old(s)@ + tail@,
{
    let mut i: usize = 0;
    while i < tail.len()
        invariant
            i <= tail@.len(),
            s@ == old(s)@ + tail@.take(i as int),
        decreases tail@.len() - i,
    {
        push_char(s, tail[i]);
        assert(tail@.take(i + 1) == tail@.take(i as int).push(tail@[i as int]));
        i = i + 1;
    }
    assert(tail@.take(tail@.len() as int) == tail@);
}

/// Appends a string slice to `s`.
pub(crate) fn append_str(s: &mut String, tail: &str)
    ensures
        final(s)@ == old(s)@ + tail@,
{
    let cs = chars_of(tail);
    append_chars(s, cs.as_slice());
}

// ---------------------------------------------------------------------------
// Whitespace
// ---------------------------------------------------------------------------

/// The Unicode `White_Space` property, which `char::is_whitespace`, `str::trim`
/// and `str::split_whitespace` use.
pub open spec fn is_white(c: char) -> bool {
    ||| ('\u{9}' <= c && c <= '\u{d}')
    ||| c == ' '
    ||| c == '\u{85}'
    ||| c == '\u{a0}'
    ||| c == '\u{1680}'
    ||| ('\u{2000}' <= c && c <= '\u{200a}')
    ||| c == '\u{2028}'
    ||| c == '\u{2029}'
    ||| c == '\u{202f}'
    ||| c == '\u{205f}'
    ||| c == '\u{3000}'
}

/// Whether `c` is a whitespace character.
pub fn is_whitespace_char(c: char) -> (b: bool)
    ensures
        b == is_white(c),
{
    ('\u{9}' <= c && c <= '\u{d}') || c == ' ' || c == '\u{85}' || c == '\u{a0}' || c
        == '\u{1680}' || ('\u{2000}' <= c && c <= '\u{200a}') || c == '\u{2028}' || c
        == '\u{2029}' || c == '\u{202f}' || c == '\u{205f}' || c == '\u{3000}'
}

/// The sequence without its leading whitespace.
pub open spec fn trim_start(s: Seq<char>) -> Seq<char>
    decreases s.len(),
{
    if s.len() > 0 && is_white(s[0]) {
        trim_start(s.drop_first())
    } else {
        s
    }
}

/// The sequence without its trailing whitespace.
pub open spec fn trim_end(s: Seq<char>) -> Seq<char>
    decreases s.len(),
{
    if s.len() > 0 && is_white(s.last()) {
        trim_end(s.drop_last())
    } else {
        s
    }
}

/// The sequence without leading and trailing whitespace, as `str::trim` gives it.
pub open spec fn trim(s: Seq<char>) -> Seq<char> {
    trim_end(trim_start(s))
}

/// Removes leading and trailing whitespace.
pub fn trim_chars(v: &[char]) -> (t: Vec<char>)
    ensures
        t@ == trim(v@),
{
    let ghost s = v@;
    let n = v.len();
    let mut i: usize = 0;
    assert(s.skip(0) == s);
    while i < n && is_whitespace_char(v[i])
        invariant
            i <= n,
            n == s.len(),
            s == v@,
            trim_start(s) == trim_start(s.skip(i as int)),
        decreases n - i,
    {
        assert(s.skip(i as int).drop_first() == s.skip(i + 1));
        i = i + 1;
    }
    let ghost front = s.skip(i as int);
    assert(trim_start(s) == front);
    let mut j: usize = n;
    assert(front.subrange(0, (j - i) as int) == front);
    while j > i && is_whitespace_char(v[j - 1])
        invariant
            i <= j <= n,
            n == s.len(),
            s == v@,
            front == s.skip(i as int),
            trim_end(front) == trim_end(front.subrange(0, (j - i) as int)),
        decreases j,
    {
        assert(front.subrange(0, (j - i) as int).drop_last() == front.subrange(
            0,
            (j - 1 - i) as int,
        ));
        j = j - 1;
    }
    assert(trim_end(front) == front.subrange(0, (j - i) as int));
    let mut t: Vec<char> = Vec::new();
    let mut k: usize = i;
    while k < j
        invariant
            i <= k <= j <= n,
            n == s.len(),
            s == v@,
            t@ == s.subrange(i as int, k as int),
        decreases j - k,
    {
        t.push(v[k]);
        assert(s.subrange(i as int, k + 1) == s.subrange(i as int, k as int).push(s[k as int]));
        k = k + 1;
    }
    assert(front.subrange(0, (j - i) as int) == s.subrange(i as int, j as int));
    t
}

// ---------------------------------------------------------------------------
// Words and lines
// ---------------------------------------------------------------------------

/// Reading `s` from the left: the words completed so far, and the word in progress.
pub open spec fn word_state(s: Seq<char>) -> (Seq<Seq<char>>, Seq<char>)
    decreases s.len(),
{
    if s.len() == 0 {
        (seq![], seq![])
    } else {
        let prev = word_state(s.drop_last());
        let c = s.last();
        if is_white(c) {
            if prev.1.len() > 0 {
                (prev.0.push(prev.1), seq![])
            } else {
                prev
            }
        } else {
            (prev.0, prev.1.push(c))
        }
    }
}

/// The maximal runs of non-whitespace characters of `s`, in order, as
/// `str::split_whitespace` yields them.
pub open spec fn words(s: Seq<char>) -> Seq<Seq<char>> {
    let st = word_state(s);
    if st.1.len() > 0 {
        st.0.push(st.1)
    } else {
        st.0
    }
}

/// The character sequences held by a sequence of vectors.
pub open spec fn views_of(v: Seq<Vec<char>>) -> Seq<Seq<char>> {
    v.map_values(|w: Vec<char>| w@)
}

/// Splits at whitespace into the non-empty words.
pub fn split_words(v: &[char]) -> (ws: Vec<Vec<char>>)
    ensures
        views_of(ws@) == words(v@),
{
    let ghost s = v@;
    let mut done: Vec<Vec<char>> = Vec::new();
    let mut cur: Vec<char> = Vec::new();
    let mut i: usize = 0;
    while i < v.len()
        invariant
            i <= s.len(),
            s == v@,
            views_of(done@) == word_state(s.take(i as int)).0,
            cur@ == word_state(s.take(i as int)).1,
        decreases s.len() - i,
    {
        let c = v[i];
        assert(s.take(i + 1).drop_last() == s.take(i as int));
        assert(s.take(i + 1).last() == c);
        if is_whitespace_char(c) {
            if cur.len() > 0 {
                let ghost before = done@;
                done.push(cur);
                cur = Vec::new();
                assert(views_of(done@) == views_of(before).push(word_state(s.take(i as int)).1));
            }
        } else {
            cur.push(c);
        }
        i = i + 1;
    }
    assert(s.take(s.len() as int) == s);
    if cur.len() > 0 {
        let ghost before = done@;
        done.push(cur);
        assert(views_of(done@) == views_of(before).push(word_state(s).1));
    }
    done
}

/// A character that ends a line: carriage return or line feed.
pub open spec fn is_line_end(c: char) -> bool {
    c == '\r' || c == '\n'
}

/// Reading `s` from the left: the lines completed so far, and the line in progress.
pub open spec fn line_state(s: Seq<char>) -> (Seq<Seq<char>>, Seq<char>)
    decreases s.len(),
{
    if s.len() == 0 {
        (seq![], seq![])
    } else {
        let prev = line_state(s.drop_last());
        if is_line_end(s.last()) {
            (prev.0.push(prev.1), seq![])
        } else {
            (prev.0, prev.1.push(s.last()))
        }
    }
}

/// The pieces of `s` between line ends (the last piece may be empty).
pub open spec fn line_pieces(s: Seq<char>) -> Seq<Seq<char>> {
    line_state(s).0.push(line_state(s).1)
}

/// Splits at every carriage return and every line feed.
pub fn split_lines(v: &[char]) -> (ls: Vec<Vec<char>>)
    ensures
        views_of(ls@) == line_pieces(v@),
{
    let ghost s = v@;
    let mut done: Vec<Vec<char>> = Vec::new();
    let mut cur: Vec<char> = Vec::new();
    let mut i: usize = 0;
    while i < v.len()
        invariant
            i <= s.len(),
            s == v@,
            views_of(done@) == line_state(s.take(i as int)).0,
            cur@ == line_state(s.take(i as int)).1,
        decreases s.len() - i,
    {
        let c = v[i];
        assert(s.take(i + 1).drop_last() == s.take(i as int));
        assert(s.take(i + 1).last() == c);
        if c == '\r' || c == '\n' {
            let ghost before = done@;
            done.push(cur);
            cur = Vec::new();
            assert(views_of(done@) == views_of(before).push(line_state(s.take(i as int)).1));
        } else {
            cur.push(c);
        }
        i = i + 1;
    }
    assert(s.take(s.len() as int) == s);
    let ghost before = done@;
    done.push(cur);
    assert(views_of(done@) == views_of(before).push(line_state(s).1));
    done
}

// ---------------------------------------------------------------------------
// Substrings
// ---------------------------------------------------------------------------

/// `needle` occurs in `hay` starting at index `i`.
pub open spec fn occurs_at(hay: Seq<char>, needle: Seq<char>, i: int) -> bool {
    &&& 0 <= i
    &&& i + needle.len() <= hay.len()
    &&& hay.subrange(i, i + needle.len()) == needle
}

/// `needle` occurs somewhere in `hay`, as `str::contains` tests it.
pub open spec fn contains_seq(hay: Seq<char>, needle: Seq<char>) -> bool {
    exists|i: int| occurs_at(hay, needle, i)
}

/// `s` begins with `prefix`, as `str::starts_with` tests it.
pub open spec fn starts_with_seq(s: Seq<char>, prefix: Seq<char>) -> bool {
    occurs_at(s, prefix, 0)
}

/// Whether `needle` occurs in `hay` at index `i`.
pub fn occurs_at_index(hay: &[char], needle: &[char], i: usize) -> (b: bool)
    ensures
        b == occurs_at(hay@, needle@, i as int),
{
    if needle.len() > hay.len() || i > hay.len() - needle.len() {
        return false;
    }
    let end = i + needle.len();
    let mut k: usize = 0;
    while k < needle.len()
        invariant
            i + needle@.len() == end,
            end <= hay@.len(),
            k <= needle@.len(),
            forall|m: int| 0 <= m < k ==> hay@[i + m] == needle@[m],
        decreases needle@.len() - k,
    {
        if hay[i + k] != needle[k] {
            assert(hay@.subrange(i as int, i + needle@.len())[k as int] != needle@[k as int]);
            return false;
        }
        k = k + 1;
    }
    assert(hay@.subrange(i as int, i + needle@.len()) == needle@);
    true
}

/// Whether `needle` occurs anywhere in `hay`.
pub fn contains_chars(hay: &[char], needle: &[char]) -> (b: bool)
    ensures
        b == contains_seq(hay@, needle@),
{
    if needle.len() > hay.len() {
        return false;
    }
    let last = hay.len() - needle.len();
    let mut i: usize = 0;
    while i < last
        invariant
            last + needle@.len() == hay@.len(),
            i <= last,
            forall|j: int| 0 <= j < i ==> !occurs_at(hay@, needle@, j),
        decreases last - i,
    {
        if occurs_at_index(hay, needle, i) {
            return true;
        }
        i = i + 1;
    }
    if occurs_at_index(hay, needle, last) {
        return true;
    }
    assert forall|j: int| !occurs_at(hay@, needle@, j) by {
        if 0 <= j < last {
        }
    }
    false
}

/// Whether `s` begins with `prefix`.
pub fn starts_with_chars(s: &[char], prefix: &[char]) -> (b: bool)
    ensures
        b == starts_with_seq(s@, prefix@),
{
    occurs_at_index(s, prefix, 0)
}

// ---------------------------------------------------------------------------
// Upper case
// ---------------------------------------------------------------------------

/// What `str::to_uppercase` returns for a string: the Unicode upper-case
/// mapping of every character, which may change the length.
pub uninterp spec fn uppercase(s: Seq<char>) -> Seq<char>;

/// The ASCII upper-case mapping of one character.
pub open spec fn ascii_upper(c: char) -> char {
    if 'a' <= c && c <= 'z' {
        ((c as int) - 32) as char
    } else {
        c
    }
}

/// The ASCII upper-case mapping of every character.
pub open spec fn ascii_uppercase(s: Seq<char>) -> Seq<char> {
    s.map_values(|c: char| ascii_upper(c))
}

/// A character that upper-casing maps by the ASCII rule: an ASCII character,
/// or a whitespace character (whitespace has no case mapping).
pub open spec fn is_plain_char(c: char) -> bool {
    c <= '\u{7f}' || is_white(c)
}

/// Every character of `s` is plain.
pub open spec fn plain_chars(s: Seq<char>) -> bool {
    forall|i: int| 0 <= i < s.len() ==> is_plain_char(#[trigger] s[i])
}

/// `str::to_uppercase`. Claimed of it: the result is the name `uppercase` of
/// the argument's characters, and on a string of ASCII and whitespace
/// characters it maps `a`..`z` to `A`..`Z` and keeps every other character
/// (the Unicode mapping of the ASCII range; whitespace characters have no
/// case mapping). Nothing is claimed of other characters.
#[verifier::external_body]
fn str_to_uppercase(s: &str) -> (r: String)
    ensures
        r@ == uppercase(s@),
        plain_chars(s@) ==> r@ == ascii_uppercase(s@),
{
    s.to_uppercase()
}

/// The upper-case form of a character sequence, as `str::to_uppercase` gives it.
pub fn uppercase_chars(v: &[char]) -> (u: Vec<char>)
    ensures
        u@ == uppercase(v@),
        plain_chars(v@) ==> u@ == ascii_uppercase(v@),
{
    let s = string_from_chars(v);
    let up = str_to_uppercase(s.as_str());
    chars_of(up.as_str())
}

} // verus!
