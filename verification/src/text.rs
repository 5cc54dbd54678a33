//! Text primitives the diffing and theme logic rely on.

use vstd::prelude::*;
use vstd::string::StrSliceExecFns;
use base64::Engine;

verus! {

/// Compares two string slices for equality.
///
/// Calls `<str as PartialEq>::eq`; the contract claims that two slices are
/// equal exactly when they hold the same characters, which is what the
/// documentation of string equality says.
#[verifier::external_body]
pub(crate) fn str_eq(a: &str, b: &str) -> (res: bool)
    ensures
        res == (a@ == b@),
{
    a == b
}

/// The characters of a string slice.
pub fn chars_of(s: &str) -> (res: Vec<char>)
    ensures
        res@ == s@,
{
    broadcast use vstd::string::group_string_axioms;
    let mut res: Vec<char> = Vec::new();
    for c in it: s.chars()
        invariant
            res@.len() == it.index(),
            forall|i: int| 0 <= i < res@.len() ==> res@[i] == it.seq()[i],
    {
        res.push(c);
    }
    assert(res@ =~= s@);
    res
}

/// Index of the first `'\n'` in `s`, or `s.len()` when there is none.
pub open spec fn newline_index(s: Seq<char>) -> nat
    decreases s.len(),
{
    if s.len() == 0 {
        0
    } else if s[0] == '\n' {
        0
    } else {
        1 + newline_index(s.drop_first())
    }
}

pub proof fn lemma_newline_index(s: Seq<char>)
    ensures
        newline_index(s) <= s.len(),
        newline_index(s) < s.len() ==> s[newline_index(s) as int] == '\n',
        forall|i: int| 0 <= i < newline_index(s) ==> s[i] != '\n',
    decreases s.len(),
{
    if s.len() > 0 && s[0] != '\n' {
        lemma_newline_index(s.drop_first());
        assert forall|i: int| 0 <= i < newline_index(s) implies s[i] != '\n' by {
            if i > 0 {
                assert(s[i] == s.drop_first()[i - 1]);
            }
        }
    }
}

/// `line` without one trailing carriage return, if it has one.
pub open spec fn strip_cr(line: Seq<char>) -> Seq<char> {
    if line.len() > 0 && line.last() == '\r' {
        line.drop_last()
    } else {
        line
    }
}

/// The lines of a text as `str::lines` documents them: the text is cut at
/// each `'\n'`; a `'\r'` right before a cut is dropped with it; a last line
/// without `'\n'` is kept as it is; the empty text has no lines.
pub open spec fn spec_lines(s: Seq<char>) -> Seq<Seq<char>>
    decreases s.len(),
{
    if s.len() == 0 {
        seq![]
    } else {
        let k = newline_index(s);
        proof {
            lemma_newline_index(s);
        }
        if k >= s.len() {
            seq![s]
        } else {
            seq![strip_cr(s.take(k as int))] + spec_lines(s.skip(k as int + 1))
        }
    }
}

/// Splits a text into its lines.
///
/// Calls `str::lines` and collects the slices it yields. The contract claims
/// what the documentation of `str::lines` says: lines end at `\n` or
/// `\r\n`, the terminator is not part of the line, and a final line
/// terminator is optional.
#[verifier::external_body]
pub(crate) fn str_lines(s: &str) -> (res: Vec<&str>)
    ensures
        res@.map_values(|l: &str| l@) == spec_lines(s@),
{
    s.lines().collect()
}

/// Reads bytes as UTF-8.
///
/// Calls `std::str::from_utf8`. The contract claims that it succeeds exactly
/// on valid UTF-8, and then yields the characters that the bytes encode.
#[verifier::external_body]
pub(crate) fn str_from_utf8(bytes: &[u8]) -> (res: Option<&str>)
    ensures
        res is Some <==> vstd::utf8::valid_utf8(bytes@),
        res matches Some(t) ==> t@ == vstd::utf8::decode_utf8(bytes@),
{
    std::str::from_utf8(bytes).ok()
}

/// The characters that `String::from_utf8_lossy` makes of `bytes`.
pub uninterp spec fn lossy_utf8(bytes: Seq<u8>) -> Seq<char>;

/// Reads bytes as UTF-8, replacing what is not valid.
///
/// Calls `String::from_utf8_lossy`. The contract claims that its result
/// depends on the bytes alone and, for valid UTF-8, is the text the bytes
/// encode. What it makes of invalid sequences (a replacement character for
/// each maximal invalid run) is left unsaid.
#[verifier::external_body]
pub(crate) fn utf8_lossy(bytes: &[u8]) -> (res: String)
    ensures
        res@ == lossy_utf8(bytes@),
        vstd::utf8::valid_utf8(bytes@) ==> res@ == vstd::utf8::decode_utf8(bytes@),
{
    String::from_utf8_lossy(bytes).into_owned()
}

/// The characters of `str::to_lowercase` of a text.
pub uninterp spec fn lowercase(s: Seq<char>) -> Seq<char>;

/// Lowercases a text by Unicode rules.
///
/// Calls `str::to_lowercase`. The contract claims only that the result
/// depends on the text alone; the Unicode case mapping is left unsaid.
#[verifier::external_body]
pub(crate) fn to_lowercase(s: &str) -> (res: String)
    ensures
        res@ == lowercase(s@),
{
    s.to_lowercase()
}

/// `s` without the `'\n'` characters at its end.
pub open spec fn strip_trailing_newlines(s: Seq<char>) -> Seq<char>
    decreases s.len(),
{
    if s.len() > 0 && s.last() == '\n' {
        strip_trailing_newlines(s.drop_last())
    } else {
        s
    }
}

/// `s` without the `'\n'` characters at its end, as `trim_end_matches('\n')` gives it.
pub fn trim_trailing_newlines(s: &str) -> (res: &str)
    ensures
        res@ == strip_trailing_newlines(s@),
{
    let len = s.unicode_len();
    let mut n: usize = len;
    assert(s@.take(len as int) == s@);
    while n > 0 && s.get_char(n - 1) == '\n'
        invariant
            len == s@.len(),
            n <= len,
            strip_trailing_newlines(s@) == strip_trailing_newlines(s@.take(n as int)),
        decreases n,
    {
        assert(s@.take(n as int).drop_last() == s@.take(n - 1));
        n -= 1;
    }
    let res = s.substring_char(0, n);
    assert(res@ == s@.take(n as int));
    res
}

/// The character with index `i` of the standard base64 alphabet.
pub open spec fn base64_char(i: int) -> char {
    if i < 26 {
        (65 + i) as char
    } else if i < 52 {
        (97 + i - 26) as char
    } else if i < 62 {
        (48 + i - 52) as char
    } else if i == 62 {
        '+'
    } else {
        '/'
    }
}

/// Standard base64 with padding (RFC 4648): each group of three bytes
/// becomes four characters of six bits each; a last group of one or two
/// bytes is filled with zero bits and padded with `'='` to four characters.
pub open spec fn base64_standard(b: Seq<u8>) -> Seq<char>
    decreases b.len(),
{
    if b.len() == 0 {
        seq![]
    } else if b.len() == 1 {
        seq![base64_char((b[0] as int) / 4), base64_char(((b[0] as int) % 4) * 16), '=', '=']
    } else if b.len() == 2 {
        seq![
            base64_char((b[0] as int) / 4),
            base64_char(((b[0] as int) % 4) * 16 + (b[1] as int) / 16),
            base64_char(((b[1] as int) % 16) * 4),
            '=',
        ]
    } else {
        seq![
            base64_char((b[0] as int) / 4),
            base64_char(((b[0] as int) % 4) * 16 + (b[1] as int) / 16),
            base64_char(((b[1] as int) % 16) * 4 + (b[2] as int) / 64),
            base64_char((b[2] as int) % 64),
        ] + base64_standard(b.skip(3))
    }
}

/// Encodes bytes in base64.
///
/// Calls `Engine::encode` of `base64::engine::general_purpose::STANDARD`,
/// the standard alphabet with padding. The contract claims the encoding of
/// RFC 4648 that this engine documents.
#[verifier::external_body]
fn base64_standard_encode(bytes: &[u8]) -> (res: String)
    ensures
        res@ == base64_standard(bytes@),
{
    base64::engine::general_purpose::STANDARD.encode(bytes)
}

/// The standard base64 encoding, with padding, of `bytes`.
pub fn encode_base64(bytes: &[u8]) -> (res: String)
    ensures
        res@ == base64_standard(bytes@),
{
    base64_standard_encode(bytes)
}

/// Whether `c` has the Unicode `White_Space` property, which is what
/// `char::is_whitespace` and `str::trim` go by.
pub open spec fn is_unicode_white_space(c: char) -> bool {
    let u = c as u32;
    (9 <= u <= 13) || u == 32 || u == 0x85 || u == 0xA0 || u == 0x1680 || (0x2000 <= u <= 0x200A)
        || u == 0x2028 || u == 0x2029 || u == 0x202F || u == 0x205F || u == 0x3000
}

fn white_space(c: char) -> (res: bool)
    ensures
        res == is_unicode_white_space(c),
{
    let u = c as u32;
    (9 <= u && u <= 13) || u == 32 || u == 0x85 || u == 0xA0 || u == 0x1680 || (0x2000 <= u && u
        <= 0x200A) || u == 0x2028 || u == 0x2029 || u == 0x202F || u == 0x205F || u == 0x3000
}

/// `s` without its leading white space.
pub open spec fn trim_start_ws(s: Seq<char>) -> Seq<char>
    decreases s.len(),
{
    if s.len() > 0 && is_unicode_white_space(s[0]) {
        trim_start_ws(s.drop_first())
    } else {
        s
    }
}

/// `s` without its trailing white space.
pub open spec fn trim_end_ws(s: Seq<char>) -> Seq<char>
    decreases s.len(),
{
    if s.len() > 0 && is_unicode_white_space(s.last()) {
        trim_end_ws(s.drop_last())
    } else {
        s
    }
}

/// `s` without its leading and trailing white space, as `str::trim` gives it.
pub open spec fn trim_ws(s: Seq<char>) -> Seq<char> {
    trim_end_ws(trim_start_ws(s))
}

/// The characters of `s` from `from` to `to`.
pub fn copy_range(s: &Vec<char>, from: usize, to: usize) -> (res: Vec<char>)
    requires
        from <= to <= s@.len(),
    ensures
        res@ == s@.subrange(from as int, to as int),
{
    let mut res: Vec<char> = Vec::new();
    let mut i: usize = from;
    while i < to
        invariant
            from <= i <= to <= s@.len(),
            res@ == s@.subrange(from as int, i as int),
        decreases to - i,
    {
        res.push(s[i]);
        i += 1;
        assert(res@ =~= s@.subrange(from as int, i as int));
    }
    res
}

/// `s` without its leading and trailing white space.
pub fn trim_chars(s: &Vec<char>) -> (res: Vec<char>)
    ensures
        res@ == trim_ws(s@),
{
    let mut start: usize = 0;
    assert(s@.subrange(0, s@.len() as int) == s@);
    while start < s.len() && white_space(s[start])
        invariant
            start <= s@.len(),
            trim_start_ws(s@) == trim_start_ws(s@.subrange(start as int, s@.len() as int)),
        decreases s@.len() - start,
    {
        assert(s@.subrange(start as int, s@.len() as int).drop_first() == s@.subrange(start + 1, s@.len() as int));
        start += 1;
    }
    let mut end: usize = s.len();
    let ghost front = s@.subrange(start as int, s@.len() as int);
    assert(front.subrange(0, front.len() as int) == front);
    while end > start && white_space(s[end - 1])
        invariant
            start <= end <= s@.len(),
            front == s@.subrange(start as int, s@.len() as int),
            trim_end_ws(front) == trim_end_ws(s@.subrange(start as int, end as int)),
        decreases end,
    {
        assert(s@.subrange(start as int, end as int).drop_last() == s@.subrange(start as int, end - 1));
        end -= 1;
    }
    copy_range(s, start, end)
}

/// `s` without its single and double quotes.
pub open spec fn strip_quotes(s: Seq<char>) -> Seq<char>
    decreases s.len(),
{
    if s.len() == 0 {
        seq![]
    } else if s.last() == '\'' || s.last() == '"' {
        strip_quotes(s.drop_last())
    } else {
        strip_quotes(s.drop_last()).push(s.last())
    }
}

/// `s` without its single and double quotes, as `replace(['\'', '"'], "")` gives it.
pub fn remove_quotes(s: &Vec<char>) -> (res: Vec<char>)
    ensures
        res@ == strip_quotes(s@),
{
    let mut res: Vec<char> = Vec::new();
    let mut i: usize = 0;
    while i < s.len()
        invariant
            i <= s@.len(),
            res@ == strip_quotes(s@.take(i as int)),
        decreases s@.len() - i,
    {
        assert(s@.take(i + 1).drop_last() == s@.take(i as int));
        let c = s[i];
        if c != '\'' && c != '"' {
            res.push(c);
        }
        i += 1;
    }
    assert(s@.take(s@.len() as int) == s@);
    res
}

/// `needle` occurs in `hay`.
pub open spec fn seq_contains(hay: Seq<char>, needle: Seq<char>) -> bool {
    exists|i: int| 0 <= i && i + needle.len() <= hay.len() && #[trigger] hay.subrange(i, i + needle.len()) == needle
}

/// Whether `needle` occurs in `hay`, as `str::contains` tells it.
pub fn contains_chars(hay: &Vec<char>, needle: &Vec<char>) -> (res: bool)
    ensures
        res == seq_contains(hay@, needle@),
{
    let n = needle.len();
    if n > hay.len() {
        return false;
    }
    let mut i: usize = 0;
    while i <= hay.len() - n
        invariant
            n == needle@.len(),
            n <= hay@.len(),
            hay@.len() <= usize::MAX,
            i <= hay@.len() - n + 1,
            forall|k: int| 0 <= k < i ==> #[trigger] hay@.subrange(k, k + n) != needle@,
        decreases hay@.len() + 1 - i,
    {
        let mut j: usize = 0;
        while j < n
            invariant
                n == needle@.len(),
                hay@.len() <= usize::MAX,
                i + n <= hay@.len(),
                j <= n,
                forall|t: int| 0 <= t < j ==> hay@[i + t] == needle@[t],
            ensures
                j <= n,
                forall|t: int| 0 <= t < j ==> hay@[i + t] == needle@[t],
                j < n ==> hay@[i + j] != needle@[j as int],
            decreases n - j,
        {
            if hay[i + j] != needle[j] {
                break;
            }
            j += 1;
        }
        if j == n {
            assert(hay@.subrange(i as int, i + n) =~= needle@);
            return true;
        }
        assert(hay@.subrange(i as int, i + n)[j as int] != needle@[j as int]);
        i += 1;
    }
    assert forall|k: int| 0 <= k && k + n <= hay@.len() implies #[trigger] hay@.subrange(k, k + n) != needle@ by {
        assert(k < i);
    }
    false
}

/// The code of `c`, with an ASCII capital taken as its small letter.
pub open spec fn ascii_lower(c: char) -> int {
    if 'A' <= c && c <= 'Z' {
        (c as u32) + 32
    } else {
        c as u32 as int
    }
}

/// `a` and `b` are equal when ASCII letters are compared without case.
pub open spec fn eq_ignoring_ascii_case(a: Seq<char>, b: Seq<char>) -> bool {
    a.len() == b.len() && forall|i: int| 0 <= i < a.len() ==> ascii_lower(#[trigger] a[i]) == ascii_lower(b[i])
}

fn ascii_lower_char(c: char) -> (res: u32)
    ensures
        res as int == ascii_lower(c),
{
    if 'A' <= c && c <= 'Z' {
        (c as u32) + 32
    } else {
        c as u32
    }
}

/// Whether `a` and `b` are equal when ASCII letters are compared without
/// case, as `str::eq_ignore_ascii_case` tells it.
pub fn eq_ignore_ascii_case_chars(a: &Vec<char>, b: &Vec<char>) -> (res: bool)
    ensures
        res == eq_ignoring_ascii_case(a@, b@),
{
    if a.len() != b.len() {
        return false;
    }
    let mut i: usize = 0;
    while i < a.len()
        invariant
            a@.len() == b@.len(),
            i <= a@.len(),
            forall|k: int| 0 <= k < i ==> ascii_lower(#[trigger] a@[k]) == ascii_lower(b@[k]),
        decreases a@.len() - i,
    {
        if ascii_lower_char(a[i]) != ascii_lower_char(b[i]) {
            return false;
        }
        i += 1;
    }
    true
}

/// Whether `a` and `b` hold the same characters.
pub fn chars_eq(a: &Vec<char>, b: &Vec<char>) -> (res: bool)
    ensures
        res == (a@ == b@),
{
    if a.len() != b.len() {
        return false;
    }
    let mut i: usize = 0;
    while i < a.len()
        invariant
            a@.len() == b@.len(),
            i <= a@.len(),
            forall|k: int| 0 <= k < i ==> a@[k] == b@[k],
        decreases a@.len() - i,
    {
        if a[i] != b[i] {
            return false;
        }
        i += 1;
    }
    assert(a@ =~= b@);
    true
}

} // verus!
