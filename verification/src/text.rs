//! Characters and strings: the vocabulary that every contract about names,
//! kernel reports and messages is written in.
//!
//! A string is modelled by the sequence of its characters. Each `*_from`
//! function describes a walk over a text that starts at a given position; the
//! executable functions below follow the same walk.

use vstd::prelude::*;

verus! {

broadcast use vstd::seq::group_seq_axioms;

/// `<str as PartialEq>::eq`: two string slices are equal exactly when they hold
/// the same characters.
pub assume_specification[ <str as PartialEq>::eq ](a: &str, b: &str) -> (r: bool)
    ensures
        r == (a@ == b@),
;

/// `String::push`: appends the character at the end.
pub assume_specification[ String::push ](s: &mut String, c: char)
    ensures
        final(s)@ == old(s)@.push(c),
;

/// What `format!("{value:?}")` renders for a string: the quoted, escaped form.
pub uninterp spec fn quoted(value: Seq<char>) -> Seq<char>;

/// `Debug` for `str`, through `format!`: the text in double quotes with
/// escapes. Which characters are escaped is left to the name.
#[verifier::external_body]
pub(crate) fn quote(value: &str) -> (r: String)
    ensures
        r@ == quoted(value@),
{
    format!("{value:?}")
}

/// The rendered form of an optional text.
pub open spec fn quoted_option(value: Option<Seq<char>>) -> Seq<char> {
    match value {
        Some(s) => "Some("@ + quoted(s) + ")"@,
        None => "None"@,
    }
}

/// The rendered form of a list of texts.
pub open spec fn quoted_list(values: Seq<Seq<char>>) -> Seq<char> {
    "["@ + joined(values.map_values(|s: Seq<char>| quoted(s)), ", "@) + "]"@
}

pub fn quote_option(value: &Option<String>) -> (r: String)
    ensures
        r@ == quoted_option(optional(*value)),
{
    match value {
        Some(s) => join3("Some(", quote(s.as_str()).as_str(), ")"),
        None => "None".to_owned(),
    }
}

pub fn quote_list(values: &Vec<String>) -> (r: String)
    ensures
        r@ == quoted_list(strings(values@)),
{
    let mut parts: Vec<String> = Vec::new();
    let mut i: usize = 0;
    while i < values.len()
        invariant
            i <= values.len(),
            parts.len() == i,
            forall|k: int| 0 <= k < i ==> #[trigger] parts@[k]@ == quoted(values@[k]@),
        decreases values.len() - i,
    {
        parts.push(quote(values[i].as_str()));
        i += 1;
    }
    assert(strings(parts@) =~= strings(values@).map_values(|s: Seq<char>| quoted(s)));
    join3("[", join(&parts, ", ").as_str(), "]")
}

/// What `String::from_utf8_lossy` makes of the bytes: invalid sequences become
/// replacement characters.
pub uninterp spec fn lossy(bytes: Seq<u8>) -> Seq<char>;

/// `String::from_utf8_lossy`. Valid UTF-8 is taken as it is; what stands in for
/// invalid sequences is left to the name.
#[verifier::external_body]
pub(crate) fn from_utf8_lossy(bytes: &Vec<u8>) -> (r: String)
    ensures
        r@ == lossy(bytes@),
        vstd::utf8::valid_utf8(bytes@) ==> vstd::utf8::encode_utf8(r@) == bytes@,
{
    String::from_utf8_lossy(bytes).into_owned()
}

/// `String::from_utf8`: succeeds exactly on valid UTF-8, and then holds those
/// bytes.
#[verifier::external_body]
pub(crate) fn from_utf8(bytes: Vec<u8>) -> (r: Option<String>)
    ensures
        r is Some <==> vstd::utf8::valid_utf8(bytes@),
        r matches Some(s) ==> vstd::utf8::encode_utf8(s@) == bytes@,
{
    String::from_utf8(bytes).ok()
}

/// The lowercase equivalent of a text.
pub uninterp spec fn lowered(value: Seq<char>) -> Seq<char>;

/// `str::to_lowercase`: the lowercase equivalent, by the Unicode case tables.
#[verifier::external_body]
pub(crate) fn to_lowercase(value: &str) -> (r: String)
    ensures
        r@ == lowered(value@),
{
    value.to_lowercase()
}

// ---------- characters ----------

/// A decimal digit.
pub open spec fn is_digit(c: char) -> bool {
    '0' <= c <= '9'
}

/// A lowercase ASCII letter.
pub open spec fn is_lower(c: char) -> bool {
    'a' <= c <= 'z'
}

/// An ASCII letter or digit.
pub open spec fn is_alnum(c: char) -> bool {
    is_digit(c) || is_lower(c) || 'A' <= c <= 'Z'
}

/// A hexadecimal digit of either case.
pub open spec fn is_hex(c: char) -> bool {
    is_digit(c) || 'a' <= c <= 'f' || 'A' <= c <= 'F'
}

/// A control character: C0, DEL or C1.
pub open spec fn is_control(c: char) -> bool {
    c as int <= 0x1f || 0x7f <= c as int <= 0x9f
}

/// A character with the Unicode property `White_Space`.
pub open spec fn is_white(c: char) -> bool {
    let n = c as int;
    ||| 0x09 <= n <= 0x0d
    ||| n == 0x20
    ||| n == 0x85
    ||| n == 0xa0
    ||| n == 0x1680
    ||| 0x2000 <= n <= 0x200a
    ||| n == 0x2028
    ||| n == 0x2029
    ||| n == 0x202f
    ||| n == 0x205f
    ||| n == 0x3000
}

pub fn digit(c: char) -> (r: bool)
    ensures
        r == is_digit(c),
{
    '0' <= c && c <= '9'
}

pub fn lower(c: char) -> (r: bool)
    ensures
        r == is_lower(c),
{
    'a' <= c && c <= 'z'
}

pub fn alnum(c: char) -> (r: bool)
    ensures
        r == is_alnum(c),
{
    digit(c) || lower(c) || ('A' <= c && c <= 'Z')
}

pub fn hex(c: char) -> (r: bool)
    ensures
        r == is_hex(c),
{
    digit(c) || ('a' <= c && c <= 'f') || ('A' <= c && c <= 'F')
}

pub fn control(c: char) -> (r: bool)
    ensures
        r == is_control(c),
{
    let n: u32 = c as u32;
    n <= 0x1f || (0x7f <= n && n <= 0x9f)
}

pub fn white(c: char) -> (r: bool)
    ensures
        r == is_white(c),
{
    let n: u32 = c as u32;
    (0x09 <= n && n <= 0x0d) || n == 0x20 || n == 0x85 || n == 0xa0 || n == 0x1680 || (0x2000 <= n
        && n <= 0x200a) || n == 0x2028 || n == 0x2029 || n == 0x202f || n == 0x205f || n == 0x3000
}

// ---------- views of lists of texts ----------

/// The texts behind a list of string slices.
pub open spec fn texts(v: Seq<&str>) -> Seq<Seq<char>> {
    v.map_values(|s: &str| s@)
}

/// The texts behind a list of strings.
pub open spec fn strings(v: Seq<String>) -> Seq<Seq<char>> {
    v.map_values(|s: String| s@)
}

/// The text behind an optional string.
pub open spec fn optional(o: Option<String>) -> Option<Seq<char>> {
    match o {
        Some(s) => Some(s@),
        None => None,
    }
}

// ---------- basic operations ----------

pub fn same(a: &str, b: &str) -> (r: bool)
    ensures
        r == (a@ == b@),
{
    *a == *b
}

/// Equality of two optional strings.
pub fn same_optional(a: &Option<String>, b: &Option<String>) -> (r: bool)
    ensures
        r == (optional(*a) == optional(*b)),
{
    match (a, b) {
        (Some(x), Some(y)) => same(x.as_str(), y.as_str()),
        (None, None) => true,
        _ => false,
    }
}

pub fn clone_optional(o: &Option<String>) -> (r: Option<String>)
    ensures
        r == *o,
{
    match o {
        Some(s) => Some(s.clone()),
        None => None,
    }
}

/// Equality of two lists of strings.
pub fn same_list(a: &Vec<String>, b: &Vec<String>) -> (r: bool)
    ensures
        r == (strings(a@) == strings(b@)),
{
    if a.len() != b.len() {
        assert(strings(a@).len() != strings(b@).len());
        return false;
    }
    let mut i: usize = 0;
    while i < a.len()
        invariant
            i <= a.len(),
            a.len() == b.len(),
            forall|k: int| 0 <= k < i ==> #[trigger] a@[k]@ == b@[k]@,
        decreases a.len() - i,
    {
        if !same(a[i].as_str(), b[i].as_str()) {
            assert(strings(a@)[i as int] != strings(b@)[i as int]);
            return false;
        }
        i += 1;
    }
    assert(strings(a@) =~= strings(b@));
    true
}

pub fn clone_list(v: &Vec<String>) -> (r: Vec<String>)
    ensures
        r@ == v@,
{
    let mut out: Vec<String> = Vec::new();
    let mut i: usize = 0;
    while i < v.len()
        invariant
            i <= v.len(),
            out@ == v@.take(i as int),
        decreases v.len() - i,
    {
        out.push(v[i].clone());
        i += 1;
    }
    assert(out@ =~= v@);
    out
}

/// Whether a list of strings holds the text.
pub fn list_holds(v: &Vec<String>, text: &str) -> (r: bool)
    ensures
        r == strings(v@).contains(text@),
{
    let mut i: usize = 0;
    while i < v.len()
        invariant
            i <= v.len(),
            forall|k: int| 0 <= k < i ==> #[trigger] v@[k]@ != text@,
        decreases v.len() - i,
    {
        if same(v[i].as_str(), text) {
            assert(strings(v@)[i as int] == text@);
            return true;
        }
        i += 1;
    }
    assert forall|k: int| 0 <= k < strings(v@).len() implies strings(v@)[k] != text@ by {
        assert(strings(v@)[k] == v@[k]@);
    }
    false
}

pub fn chars_of(s: &str) -> (r: Vec<char>)
    ensures
        r@ == s@,
{
    let mut out: Vec<char> = Vec::new();
    for c in it: s.chars()
        invariant
            out@ == it.seq().take(it.index() as int),
            it.seq() == s@,
    {
        out.push(c);
    }
    out
}

pub fn string_of(cs: &Vec<char>) -> (r: String)
    ensures
        r@ == cs@,
{
    let mut out = String::new();
    let mut i: usize = 0;
    while i < cs.len()
        invariant
            i <= cs.len(),
            out@ == cs@.take(i as int),
        decreases cs.len() - i,
    {
        out.push(cs[i]);
        i += 1;
    }
    assert(out@ =~= cs@);
    out
}

/// One text followed by another.
pub fn join2(a: &str, b: &str) -> (r: String)
    ensures
        r@ == a@ + b@,
{
    let mut out = a.to_owned();
    out.append(b);
    out
}

/// Three texts in a row.
pub fn join3(a: &str, b: &str, c: &str) -> (r: String)
    ensures
        r@ == a@ + b@ + c@,
{
    let mut out = join2(a, b);
    out.append(c);
    out
}

/// Four texts in a row.
pub fn join4(a: &str, b: &str, c: &str, d: &str) -> (r: String)
    ensures
        r@ == a@ + b@ + c@ + d@,
{
    let mut out = join3(a, b, c);
    out.append(d);
    out
}

/// Five texts in a row.
pub fn join5(a: &str, b: &str, c: &str, d: &str, e: &str) -> (r: String)
    ensures
        r@ == a@ + b@ + c@ + d@ + e@,
{
    let mut out = join3(a, b, c);
    out.append(d);
    out.append(e);
    out
}

// ---------- prefixes ----------

/// `s` begins with `prefix`.
pub open spec fn starts_with(s: Seq<char>, prefix: Seq<char>) -> bool {
    prefix.len() <= s.len() && s.subrange(0, prefix.len() as int) == prefix
}

/// What follows `prefix` in `s`, if `s` begins with it.
pub open spec fn after_prefix(s: Seq<char>, prefix: Seq<char>) -> Option<Seq<char>> {
    if starts_with(s, prefix) {
        Some(s.subrange(prefix.len() as int, s.len() as int))
    } else {
        None
    }
}

pub fn strip_prefix<'a>(s: &'a str, prefix: &str) -> (r: Option<&'a str>)
    ensures
        r is Some <==> after_prefix(s@, prefix@) is Some,
        r matches Some(rest) ==> after_prefix(s@, prefix@) == Some(rest@),
{
    let n: usize = s.unicode_len();
    let m: usize = prefix.unicode_len();
    if m <= n && same(s.substring_char(0, m), prefix) {
        Some(s.substring_char(m, n))
    } else {
        None
    }
}

pub fn has_prefix(s: &str, prefix: &str) -> (r: bool)
    ensures
        r == starts_with(s@, prefix@),
{
    strip_prefix(s, prefix).is_some()
}

// ---------- searching ----------

/// The first position at or after `i` that holds `c`, or the length of `s`.
pub open spec fn first_from(s: Seq<char>, c: char, i: int) -> int
    decreases s.len() - i,
{
    if i >= s.len() || s[i] == c {
        i
    } else {
        first_from(s, c, i + 1)
    }
}

pub proof fn lemma_first_from(s: Seq<char>, c: char, i: int)
    requires
        0 <= i <= s.len(),
    ensures
        i <= first_from(s, c, i) <= s.len(),
        first_from(s, c, i) < s.len() ==> s[first_from(s, c, i)] == c,
        forall|k: int| i <= k < first_from(s, c, i) ==> s[k] != c,
    decreases s.len() - i,
{
    if i < s.len() && s[i] != c {
        lemma_first_from(s, c, i + 1);
    }
}

pub fn find_char(cs: &Vec<char>, c: char, start: usize) -> (r: usize)
    requires
        start <= cs.len(),
    ensures
        r == first_from(cs@, c, start as int),
        start <= r <= cs.len(),
{
    let mut i: usize = start;
    while i < cs.len() && cs[i] != c
        invariant
            start <= i <= cs.len(),
            first_from(cs@, c, start as int) == first_from(cs@, c, i as int),
        decreases cs.len() - i,
    {
        i += 1;
    }
    i
}

/// Whether the character occurs in the text.
pub fn has_char(s: &str, c: char) -> (r: bool)
    ensures
        r == s@.contains(c),
{
    let cs = chars_of(s);
    let i: usize = find_char(&cs, c, 0);
    proof {
        lemma_first_from(s@, c, 0);
        if i < s@.len() {
            assert(s@[i as int] == c);
        }
    }
    i < cs.len()
}

// ---------- splitting ----------

/// The pieces of `s` from position `i` on, cut at every `sep`.
pub open spec fn split_from(s: Seq<char>, sep: char, i: int) -> Seq<Seq<char>>
    decreases s.len() - i,
{
    let j = first_from(s, sep, i);
    if 0 <= i <= j < s.len() {
        seq![s.subrange(i, j)] + split_from(s, sep, j + 1)
    } else {
        seq![s.subrange(i, s.len() as int)]
    }
}

/// The pieces of `s` between the occurrences of `sep`.
pub open spec fn split(s: Seq<char>, sep: char) -> Seq<Seq<char>> {
    split_from(s, sep, 0)
}

pub fn split_text<'a>(s: &'a str, sep: char) -> (r: Vec<&'a str>)
    ensures
        texts(r@) == split(s@, sep),
{
    let cs = chars_of(s);
    let mut out: Vec<&'a str> = Vec::new();
    let mut start: usize = 0;
    loop
        invariant_except_break
            cs@ == s@,
            start <= cs.len(),
            texts(out@) + split_from(s@, sep, start as int) == split(s@, sep),
        ensures
            texts(out@) == split(s@, sep),
        decreases cs.len() + 1 - start,
    {
        let end: usize = find_char(&cs, sep, start);
        let ghost before = out@;
        if end < cs.len() {
            out.push(s.substring_char(start, end));
            proof {
                assert(texts(out@) =~= texts(before).push(s@.subrange(start as int, end as int)));
                assert(texts(out@) + split_from(s@, sep, end + 1) =~= texts(before) + (seq![
                    s@.subrange(start as int, end as int),
                ] + split_from(s@, sep, end + 1)));
            }
            start = end + 1;
        } else {
            out.push(s.substring_char(start, cs.len()));
            proof {
                assert(texts(out@) =~= texts(before) + seq![
                    s@.subrange(start as int, s@.len() as int),
                ]);
            }
            break;
        }
    }
    out
}

/// Whether `pat` stands in `s` at position `i`.
pub open spec fn stands_at(s: Seq<char>, pat: Seq<char>, i: int) -> bool {
    0 <= i && i + pat.len() <= s.len() && s.subrange(i, i + pat.len()) == pat
}

/// The first position at or after `i` where `pat` stands in `s`.
pub open spec fn find_from(s: Seq<char>, pat: Seq<char>, i: int) -> Option<int>
    decreases s.len() + 1 - i,
{
    if i > s.len() {
        None
    } else if stands_at(s, pat, i) {
        Some(i)
    } else {
        find_from(s, pat, i + 1)
    }
}

/// The text before and after the first occurrence of `pat`.
pub open spec fn cut(s: Seq<char>, pat: Seq<char>) -> Option<(Seq<char>, Seq<char>)> {
    match find_from(s, pat, 0) {
        Some(i) => Some((s.subrange(0, i), s.subrange(i + pat.len(), s.len() as int))),
        None => None,
    }
}

/// The two halves behind a pair of string slices.
pub open spec fn pair_text(p: Option<(&str, &str)>) -> Option<(Seq<char>, Seq<char>)> {
    match p {
        Some((a, b)) => Some((a@, b@)),
        None => None,
    }
}

pub fn split_once<'a>(s: &'a str, pat: &str) -> (r: Option<(&'a str, &'a str)>)
    ensures
        pair_text(r) == cut(s@, pat@),
{
    let n: usize = s.unicode_len();
    let m: usize = pat.unicode_len();
    if m > n {
        proof {
            lemma_find_none(s@, pat@, 0);
        }
        return None;
    }
    let mut i: usize = 0;
    loop
        invariant
            n == s@.len(),
            m == pat@.len(),
            i + m <= n,
            find_from(s@, pat@, 0) == find_from(s@, pat@, i as int),
        decreases n - i,
    {
        if same(s.substring_char(i, i + m), pat) {
            return Some((s.substring_char(0, i), s.substring_char(i + m, n)));
        }
        if i == n - m {
            proof {
                lemma_find_none(s@, pat@, i + 1);
            }
            return None;
        }
        i += 1;
    }
}

proof fn lemma_find_none(s: Seq<char>, pat: Seq<char>, i: int)
    requires
        0 <= i,
        i > s.len() || s.len() - i < pat.len(),
    ensures
        find_from(s, pat, i) is None,
    decreases s.len() + 1 - i,
{
    if i <= s.len() {
        lemma_find_none(s, pat, i + 1);
    }
}

/// The pieces of `s` between the occurrences of `pat`.
pub open spec fn pieces(s: Seq<char>, pat: Seq<char>) -> Seq<Seq<char>>
    decreases s.len(),
{
    match cut(s, pat) {
        Some((head, rest)) => if rest.len() < s.len() {
            seq![head] + pieces(rest, pat)
        } else {
            seq![s]
        },
        None => seq![s],
    }
}

proof fn lemma_find_bounds(s: Seq<char>, pat: Seq<char>, i: int)
    requires
        0 <= i,
    ensures
        find_from(s, pat, i) matches Some(j) ==> i <= j && j + pat.len() <= s.len(),
    decreases s.len() + 1 - i,
{
    if i <= s.len() && !stands_at(s, pat, i) {
        lemma_find_bounds(s, pat, i + 1);
    }
}

pub fn split_by<'a>(s: &'a str, pat: &str) -> (r: Vec<&'a str>)
    requires
        pat@.len() > 0,
    ensures
        texts(r@) == pieces(s@, pat@),
{
    let mut out: Vec<&'a str> = Vec::new();
    let mut rest: &'a str = s;
    assert(texts(out@) + pieces(rest@, pat@) =~= pieces(s@, pat@));
    loop
        invariant
            pat@.len() > 0,
            texts(out@) + pieces(rest@, pat@) == pieces(s@, pat@),
        decreases rest@.len(),
    {
        let ghost before = out@;
        proof {
            lemma_find_bounds(rest@, pat@, 0);
        }
        match split_once(rest, pat) {
            Some((head, tail)) => {
                assert(cut(rest@, pat@) == Some((head@, tail@)));
                out.push(head);
                proof {
                    assert(texts(out@) =~= texts(before).push(head@));
                    assert(texts(out@) + pieces(tail@, pat@) =~= texts(before) + (seq![head@]
                        + pieces(tail@, pat@)));
                }
                rest = tail;
            },
            None => {
                assert(cut(rest@, pat@) is None);
                out.push(rest);
                assert(texts(out@) =~= texts(before) + seq![rest@]);
                return out;
            },
        }
    }
}

// ---------- white space ----------

/// The first position at or after `i` that is not white space.
pub open spec fn skip_white_from(s: Seq<char>, i: int) -> int
    decreases s.len() - i,
{
    if 0 <= i < s.len() && is_white(s[i]) {
        skip_white_from(s, i + 1)
    } else {
        i
    }
}

/// The first position at or after `i` that is white space, or the end.
pub open spec fn skip_word_from(s: Seq<char>, i: int) -> int
    decreases s.len() - i,
{
    if 0 <= i < s.len() && !is_white(s[i]) {
        skip_word_from(s, i + 1)
    } else {
        i
    }
}

/// The end of the text once white space before position `end` is dropped.
pub open spec fn trim_end_at(s: Seq<char>, end: int) -> int
    decreases end,
{
    if 0 < end <= s.len() && is_white(s[end - 1]) {
        trim_end_at(s, end - 1)
    } else {
        end
    }
}

/// `s` without white space at either end.
pub open spec fn trimmed(s: Seq<char>) -> Seq<char> {
    let start = skip_white_from(s, 0);
    let end = trim_end_at(s, s.len() as int);
    if start >= s.len() {
        Seq::empty()
    } else {
        s.subrange(start, end)
    }
}

pub proof fn lemma_skip_white(s: Seq<char>, i: int)
    requires
        0 <= i <= s.len(),
    ensures
        i <= skip_white_from(s, i) <= s.len(),
        skip_white_from(s, i) < s.len() ==> !is_white(s[skip_white_from(s, i)]),
    decreases s.len() - i,
{
    if i < s.len() && is_white(s[i]) {
        lemma_skip_white(s, i + 1);
    }
}

pub proof fn lemma_skip_word(s: Seq<char>, i: int)
    requires
        0 <= i <= s.len(),
    ensures
        i <= skip_word_from(s, i) <= s.len(),
        i < s.len() && !is_white(s[i]) ==> i < skip_word_from(s, i),
    decreases s.len() - i,
{
    if i < s.len() && !is_white(s[i]) {
        lemma_skip_word(s, i + 1);
    }
}

proof fn lemma_trim_end(s: Seq<char>, end: int, mark: int)
    requires
        0 <= mark < end <= s.len(),
        !is_white(s[mark]),
    ensures
        mark < trim_end_at(s, end) <= end,
    decreases end,
{
    if is_white(s[end - 1]) {
        lemma_trim_end(s, end - 1, mark);
    }
}

fn skip_white(cs: &Vec<char>, start: usize) -> (r: usize)
    requires
        start <= cs.len(),
    ensures
        r == skip_white_from(cs@, start as int),
        start <= r <= cs.len(),
{
    let mut i: usize = start;
    while i < cs.len() && white(cs[i])
        invariant
            start <= i <= cs.len(),
            skip_white_from(cs@, start as int) == skip_white_from(cs@, i as int),
        decreases cs.len() - i,
    {
        i += 1;
    }
    i
}

fn skip_word(cs: &Vec<char>, start: usize) -> (r: usize)
    requires
        start <= cs.len(),
    ensures
        r == skip_word_from(cs@, start as int),
        start <= r <= cs.len(),
{
    let mut i: usize = start;
    while i < cs.len() && !white(cs[i])
        invariant
            start <= i <= cs.len(),
            skip_word_from(cs@, start as int) == skip_word_from(cs@, i as int),
        decreases cs.len() - i,
    {
        i += 1;
    }
    i
}

pub fn trim<'a>(s: &'a str) -> (r: &'a str)
    ensures
        r@ == trimmed(s@),
{
    let cs = chars_of(s);
    let start: usize = skip_white(&cs, 0);
    if start >= cs.len() {
        return s.substring_char(0, 0);
    }
    let mut end: usize = cs.len();
    proof {
        lemma_skip_white(s@, 0);
    }
    while end > 0 && white(cs[end - 1])
        invariant
            cs@ == s@,
            end <= cs.len(),
            trim_end_at(s@, s@.len() as int) == trim_end_at(s@, end as int),
        decreases end,
    {
        end -= 1;
    }
    proof {
        lemma_trim_end(s@, s@.len() as int, start as int);
    }
    s.substring_char(start, end)
}

/// The maximal runs without white space from position `i` on.
pub open spec fn words_from(s: Seq<char>, i: int) -> Seq<Seq<char>>
    decreases s.len() - i,
{
    let start = skip_white_from(s, i);
    let end = skip_word_from(s, start);
    if 0 <= i <= start < end <= s.len() {
        seq![s.subrange(start, end)] + words_from(s, end)
    } else {
        Seq::empty()
    }
}

/// The fields of `s` that white space separates.
pub open spec fn words(s: Seq<char>) -> Seq<Seq<char>> {
    words_from(s, 0)
}

pub fn split_words<'a>(s: &'a str) -> (r: Vec<&'a str>)
    ensures
        texts(r@) == words(s@),
{
    let cs = chars_of(s);
    let mut out: Vec<&'a str> = Vec::new();
    let mut pos: usize = 0;
    loop
        invariant_except_break
            cs@ == s@,
            pos <= cs.len(),
            texts(out@) + words_from(s@, pos as int) == words(s@),
        ensures
            texts(out@) == words(s@),
        decreases cs.len() - pos,
    {
        let start: usize = skip_white(&cs, pos);
        let ghost before = out@;
        proof {
            lemma_skip_white(s@, pos as int);
            lemma_skip_word(s@, start as int);
        }
        if start >= cs.len() {
            assert(texts(out@) =~= texts(out@) + words_from(s@, pos as int));
            break;
        }
        let end: usize = skip_word(&cs, start);
        out.push(s.substring_char(start, end));
        proof {
            assert(texts(out@) =~= texts(before).push(s@.subrange(start as int, end as int)));
            assert(texts(out@) + words_from(s@, end as int) =~= texts(before) + (seq![
                s@.subrange(start as int, end as int),
            ] + words_from(s@, end as int)));
        }
        pos = end;
    }
    out
}

// ---------- lines ----------

/// A line without the carriage return that stood before its line feed.
pub open spec fn without_return(line: Seq<char>) -> Seq<char> {
    if line.len() > 0 && line.last() == '\r' {
        line.drop_last()
    } else {
        line
    }
}

/// The lines of `s` from position `i` on.
pub open spec fn lines_from(s: Seq<char>, i: int) -> Seq<Seq<char>>
    decreases s.len() - i,
{
    let j = first_from(s, '\n', i);
    if i < 0 || i >= s.len() {
        Seq::empty()
    } else if i <= j < s.len() {
        seq![without_return(s.subrange(i, j))] + lines_from(s, j + 1)
    } else {
        seq![s.subrange(i, s.len() as int)]
    }
}

/// The lines of `s`: a line feed, or a carriage return and a line feed, ends
/// a line, and the last line need not be ended.
pub open spec fn lines(s: Seq<char>) -> Seq<Seq<char>> {
    lines_from(s, 0)
}

pub fn split_lines<'a>(s: &'a str) -> (r: Vec<&'a str>)
    ensures
        texts(r@) == lines(s@),
{
    let cs = chars_of(s);
    let mut out: Vec<&'a str> = Vec::new();
    let mut pos: usize = 0;
    assert(texts(out@) + lines_from(s@, 0) =~= lines(s@));
    while pos < cs.len()
        invariant
            cs@ == s@,
            pos <= cs.len(),
            texts(out@) + lines_from(s@, pos as int) == lines(s@),
        decreases cs.len() - pos,
    {
        let ghost before = out@;
        let end: usize = find_char(&cs, '\n', pos);
        if end < cs.len() {
            let stop: usize = if end > pos && cs[end - 1] == '\r' {
                end - 1
            } else {
                end
            };
            out.push(s.substring_char(pos, stop));
            proof {
                let line = s@.subrange(pos as int, end as int);
                assert(s@.subrange(pos as int, stop as int) =~= without_return(line));
                assert(texts(out@) =~= texts(before).push(without_return(line)));
                assert(texts(out@) + lines_from(s@, end + 1) =~= texts(before) + (seq![
                    without_return(line),
                ] + lines_from(s@, end + 1)));
            }
            pos = end + 1;
        } else {
            out.push(s.substring_char(pos, cs.len()));
            proof {
                assert(texts(out@) =~= texts(before).push(
                    s@.subrange(pos as int, s@.len() as int),
                ));
                assert(texts(out@) + lines_from(s@, s@.len() as int) =~= texts(before) + seq![
                    s@.subrange(pos as int, s@.len() as int),
                ]);
            }
            pos = cs.len();
        }
    }
    assert(texts(out@) =~= texts(out@) + lines_from(s@, pos as int));
    out
}

// ---------- numbers ----------

/// The digit that stands for `d`.
pub open spec fn digit_char(d: int) -> char {
    if d == 0 {
        '0'
    } else if d == 1 {
        '1'
    } else if d == 2 {
        '2'
    } else if d == 3 {
        '3'
    } else if d == 4 {
        '4'
    } else if d == 5 {
        '5'
    } else if d == 6 {
        '6'
    } else if d == 7 {
        '7'
    } else if d == 8 {
        '8'
    } else {
        '9'
    }
}

/// The number that a digit stands for.
pub open spec fn digit_value(c: char) -> int {
    c as int - '0' as int
}

/// The decimal numeral of `n`, without leading zeros.
pub open spec fn decimal(n: nat) -> Seq<char>
    decreases n,
{
    if n < 10 {
        seq![digit_char(n as int)]
    } else {
        decimal(n / 10).push(digit_char((n % 10) as int))
    }
}

pub fn show(n: u64) -> (r: String)
    ensures
        r@ == decimal(n as nat),
    decreases n,
{
    let d: u64 = n % 10;
    let c = if d == 0 {
        '0'
    } else if d == 1 {
        '1'
    } else if d == 2 {
        '2'
    } else if d == 3 {
        '3'
    } else if d == 4 {
        '4'
    } else if d == 5 {
        '5'
    } else if d == 6 {
        '6'
    } else if d == 7 {
        '7'
    } else if d == 8 {
        '8'
    } else {
        '9'
    };
    let mut out = if n < 10 {
        String::new()
    } else {
        show(n / 10)
    };
    let ghost before = out@;
    out.push(c);
    assert(n < 10 ==> out@ =~= seq![digit_char(n as int)]);
    out
}

/// Every character is a decimal digit.
pub open spec fn all_digits(s: Seq<char>) -> bool {
    forall|i: int| 0 <= i < s.len() ==> is_digit(#[trigger] s[i])
}

/// The value of a run of digits.
pub open spec fn value(s: Seq<char>) -> nat
    decreases s.len(),
{
    if s.len() == 0 {
        0
    } else {
        (value(s.drop_last()) * 10 + digit_value(s.last())) as nat
    }
}

/// The digits of an unsigned numeral, after an optional plus sign.
pub open spec fn numeral(s: Seq<char>) -> Seq<char> {
    if s.len() > 1 && s[0] == '+' {
        s.subrange(1, s.len() as int)
    } else {
        s
    }
}

/// The number that `s` denotes: digits, at most one plus sign before them.
pub open spec fn parsed(s: Seq<char>) -> Option<nat> {
    let d = numeral(s);
    if d.len() > 0 && all_digits(d) {
        Some(value(d))
    } else {
        None
    }
}

/// The number that `s` denotes, if it does not exceed `max`.
pub open spec fn parsed_upto(s: Seq<char>, max: nat) -> Option<nat> {
    match parsed(s) {
        Some(v) => if v <= max {
            Some(v)
        } else {
            None
        },
        None => None,
    }
}

proof fn lemma_value_grows(s: Seq<char>, i: int)
    requires
        0 <= i <= s.len(),
        all_digits(s),
    ensures
        value(s.take(i)) <= value(s),
    decreases s.len() - i,
{
    if i == s.len() {
        assert(s.take(i) =~= s);
    } else {
        lemma_value_grows(s, i + 1);
        let t = s.take(i + 1);
        assert(t.drop_last() =~= s.take(i));
        assert(is_digit(s[i]));
    }
}

pub fn parse_upto(s: &str, max: u64) -> (r: Option<u64>)
    ensures
        r matches Some(v) ==> parsed_upto(s@, max as nat) == Some(v as nat),
        r is None ==> parsed_upto(s@, max as nat) is None,
{
    let cs = chars_of(s);
    let start: usize = if cs.len() > 1 && cs[0] == '+' {
        1
    } else {
        0
    };
    let ghost d = numeral(s@);
    assert(d =~= s@.subrange(start as int, s@.len() as int));
    if start >= cs.len() {
        return None;
    }
    let mut over = false;
    let mut v: u64 = 0;
    let mut i: usize = start;
    while i < cs.len()
        invariant
            start <= i <= cs.len(),
            cs@ == s@,
            d == s@.subrange(start as int, s@.len() as int),
            d == numeral(s@),
            forall|k: int| 0 <= k < i - start ==> is_digit(#[trigger] d[k]),
            over ==> value(d.take(i - start)) > max,
            !over ==> v == value(d.take(i - start)) && v <= max,
        decreases cs.len() - i,
    {
        let c = cs[i];
        assert(d[i - start] == c);
        if !digit(c) {
            assert(!all_digits(d));
            return None;
        }
        proof {
            let t = d.take(i - start + 1);
            assert(t.drop_last() =~= d.take(i - start));
            assert(t.last() == c);
        }
        let n: u64 = (c as u32 - '0' as u32) as u64;
        if !over {
            if v > u64::MAX / 10 || v * 10 > u64::MAX - n || v * 10 + n > max {
                over = true;
            } else {
                v = v * 10 + n;
            }
        }
        i += 1;
    }
    proof {
        assert(d.take(i - start) =~= d);
        assert(all_digits(d));
    }
    if over {
        None
    } else {
        Some(v)
    }
}

proof fn lemma_decimal_digits(n: nat)
    ensures
        decimal(n).len() > 0,
        all_digits(decimal(n)),
        value(decimal(n)) == n,
    decreases n,
{
    if n >= 10 {
        lemma_decimal_digits(n / 10);
        let s = decimal(n);
        assert(s.drop_last() =~= decimal(n / 10));
        assert forall|i: int| 0 <= i < s.len() implies is_digit(#[trigger] s[i]) by {
            if i < s.len() - 1 {
                assert(s[i] == decimal(n / 10)[i]);
            }
        }
    } else {
        let s = decimal(n);
        assert(s.drop_last() =~= Seq::<char>::empty());
        assert(value(s.drop_last()) == 0);
    }
}

/// Reading the decimal numeral of a number gives the number back.
pub proof fn numerals_read_back(n: nat)
    ensures
        parsed(decimal(n)) == Some(n),
{
    lemma_decimal_digits(n);
    assert(is_digit(decimal(n)[0]));
}

// ---------- joining and replacing ----------

/// The texts in order with `sep` between neighbours.
pub open spec fn joined(parts: Seq<Seq<char>>, sep: Seq<char>) -> Seq<char>
    decreases parts.len(),
{
    if parts.len() == 0 {
        Seq::empty()
    } else if parts.len() == 1 {
        parts[0]
    } else {
        joined(parts.drop_last(), sep) + sep + parts.last()
    }
}

pub fn join(parts: &Vec<String>, sep: &str) -> (r: String)
    ensures
        r@ == joined(strings(parts@), sep@),
{
    let mut out = String::new();
    let mut i: usize = 0;
    while i < parts.len()
        invariant
            i <= parts.len(),
            out@ == joined(strings(parts@.take(i as int)), sep@),
        decreases parts.len() - i,
    {
        let ghost prefix = strings(parts@.take(i + 1));
        assert(prefix.drop_last() =~= strings(parts@.take(i as int)));
        if i > 0 {
            out.append(sep);
        }
        out.append(parts[i].as_str());
        assert(i == 0 ==> out@ =~= prefix[0]);
        i += 1;
    }
    assert(parts@.take(i as int) =~= parts@);
    out
}

/// `s` with every `c` replaced by `by`.
pub open spec fn replaced(s: Seq<char>, c: char, by: Seq<char>) -> Seq<char>
    decreases s.len(),
{
    if s.len() == 0 {
        Seq::empty()
    } else if s.last() == c {
        replaced(s.drop_last(), c, by) + by
    } else {
        replaced(s.drop_last(), c, by).push(s.last())
    }
}

pub fn replace(s: &str, c: char, by: &str) -> (r: String)
    ensures
        r@ == replaced(s@, c, by@),
{
    let cs = chars_of(s);
    let mut out = String::new();
    let mut i: usize = 0;
    while i < cs.len()
        invariant
            cs@ == s@,
            i <= cs.len(),
            out@ == replaced(s@.take(i as int), c, by@),
        decreases cs.len() - i,
    {
        assert(s@.take(i + 1).drop_last() =~= s@.take(i as int));
        if cs[i] == c {
            out.append(by);
        } else {
            out.push(cs[i]);
        }
        i += 1;
    }
    assert(s@.take(i as int) =~= s@);
    out
}

// ---------- order ----------

/// `a` comes before `b`, both compared from position `i` on.
pub open spec fn less_from(a: Seq<char>, b: Seq<char>, i: int) -> bool
    decreases b.len() - i,
{
    if i >= b.len() {
        false
    } else if i >= a.len() {
        true
    } else if a[i] != b[i] {
        a[i] < b[i]
    } else {
        less_from(a, b, i + 1)
    }
}

/// `a` comes strictly before `b` in dictionary order.
pub open spec fn less(a: Seq<char>, b: Seq<char>) -> bool {
    less_from(a, b, 0)
}

/// No text comes before an earlier one.
pub open spec fn ascending(v: Seq<Seq<char>>) -> bool {
    forall|i: int, j: int| 0 <= i < j < v.len() ==> !less(#[trigger] v[j], #[trigger] v[i])
}

proof fn lemma_less_total(a: Seq<char>, b: Seq<char>, i: int)
    requires
        0 <= i <= a.len(),
        i <= b.len(),
        a.take(i) == b.take(i),
    ensures
        !(less_from(a, b, i) && less_from(b, a, i)),
        !less_from(a, b, i) && !less_from(b, a, i) ==> a == b,
    decreases a.len() + b.len() - 2 * i,
{
    if i < a.len() && i < b.len() && a[i] == b[i] {
        assert(a.take(i + 1) =~= a.take(i).push(a[i]));
        assert(b.take(i + 1) =~= b.take(i).push(b[i]));
        lemma_less_total(a, b, i + 1);
    } else if i == a.len() && i == b.len() {
        assert(a.take(i) =~= a);
        assert(b.take(i) =~= b);
    }
}

proof fn lemma_less_trans(a: Seq<char>, b: Seq<char>, c: Seq<char>, i: int)
    requires
        0 <= i <= a.len(),
        i <= b.len(),
        i <= c.len(),
        !less_from(b, a, i),
        !less_from(c, b, i),
    ensures
        !less_from(c, a, i),
    decreases a.len() + b.len() + c.len() - 3 * i,
{
    if i < a.len() && i < b.len() && i < c.len() && a[i] == b[i] && b[i] == c[i] {
        lemma_less_trans(a, b, c, i + 1);
    }
}

/// Dictionary order puts any two different texts in exactly one order, and
/// "not after" is transitive.
pub proof fn dictionary_order_is_total(a: Seq<char>, b: Seq<char>, c: Seq<char>)
    ensures
        !(less(a, b) && less(b, a)),
        !less(a, b) && !less(b, a) ==> a == b,
        !less(b, a) && !less(c, b) ==> !less(c, a),
{
    assert(a.take(0) =~= b.take(0));
    lemma_less_total(a, b, 0);
    if !less(b, a) && !less(c, b) {
        lemma_less_trans(a, b, c, 0);
    }
}

pub fn comes_before(a: &str, b: &str) -> (r: bool)
    ensures
        r == less(a@, b@),
{
    let x = chars_of(a);
    let y = chars_of(b);
    let mut i: usize = 0;
    while i < y.len() && i < x.len() && x[i] == y[i]
        invariant
            x@ == a@,
            y@ == b@,
            i <= x.len(),
            i <= y.len(),
            less(a@, b@) == less_from(a@, b@, i as int),
        decreases y.len() - i,
    {
        i += 1;
    }
    if i >= y.len() {
        false
    } else if i >= x.len() {
        true
    } else {
        x[i] < y[i]
    }
}

/// A list with one more text, put after those that do not come after it.
pub open spec fn placed(v: Seq<Seq<char>>, word: Seq<char>) -> Seq<Seq<char>>
    decreases v.len(),
{
    if v.len() > 0 && less(word, v.last()) {
        placed(v.drop_last(), word).push(v.last())
    } else {
        v.push(word)
    }
}

/// The texts in dictionary order.
pub open spec fn sorted(v: Seq<Seq<char>>) -> Seq<Seq<char>>
    decreases v.len(),
{
    if v.len() == 0 {
        Seq::empty()
    } else {
        placed(sorted(v.drop_last()), v.last())
    }
}

/// Put one text into an ordered list, after those that do not come after it.
pub fn insert_ordered(v: &mut Vec<String>, s: String)
    requires
        ascending(strings(old(v)@)),
    ensures
        ascending(strings(final(v)@)),
        exists|k: int|
            0 <= k <= old(v)@.len() && strings(final(v)@) == #[trigger] strings(old(v)@).insert(
                k,
                s@,
            ),
        strings(final(v)@).to_multiset() == strings(old(v)@).to_multiset().insert(s@),
        final(v)@.len() == old(v)@.len() + 1,
        strings(final(v)@) == placed(strings(old(v)@), s@),
{
    let mut i: usize = v.len();
    let ghost all = strings(v@);
    assert(all.take(i as int) =~= all);
    assert(placed(all, s@) =~= placed(all.take(i as int), s@) + all.skip(i as int));
    while i > 0 && comes_before(s.as_str(), v[i - 1].as_str())
        invariant
            i <= v.len(),
            v@ == old(v)@,
            all == strings(v@),
            forall|k: int| i <= k < v@.len() ==> less(s@, #[trigger] v@[k]@),
            placed(all, s@) == placed(all.take(i as int), s@) + all.skip(i as int),
        decreases i,
    {
        proof {
            let head = all.take(i as int);
            assert(head.last() == v@[i - 1]@);
            assert(head.drop_last() =~= all.take(i - 1));
            assert(placed(head, s@) + all.skip(i as int) =~= placed(all.take(i - 1), s@)
                + all.skip(i - 1));
        }
        i -= 1;
    }
    proof {
        let head = all.take(i as int);
        if i > 0 {
            assert(head.last() == v@[i - 1]@);
        }
        assert(placed(head, s@) =~= head.push(s@));
        assert(placed(all, s@) =~= all.insert(i as int, s@));
    }
    let ghost before = strings(v@);
    let ghost word = s@;
    assert(forall|k: int| 0 <= k < before.len() ==> #[trigger] before[k] == v@[k]@);
    v.insert(i, s);
    proof {
        let after = strings(v@);
        assert(after =~= before.insert(i as int, word));
        before.to_multiset_ensures();
        vstd::seq_lib::to_multiset_insert(before, i as int, word);
        assert forall|a: int, b: int| 0 <= a < b < after.len() implies !less(
            #[trigger] after[b],
            #[trigger] after[a],
        ) by {
            if a == i {
                assert(after[b] == before[b - 1]);
                dictionary_order_is_total(word, after[b], word);
            } else if b == i {
                if a < i - 1 {
                    dictionary_order_is_total(after[a], before[i - 1], word);
                }
            }
        }
    }
}

/// The texts in dictionary order.
pub fn sort(v: &Vec<String>) -> (r: Vec<String>)
    ensures
        ascending(strings(r@)),
        strings(r@).to_multiset() == strings(v@).to_multiset(),
        r@.len() == v@.len(),
        strings(r@) == sorted(strings(v@)),
{
    let mut out: Vec<String> = Vec::new();
    let mut i: usize = 0;
    assert(strings(v@.take(0)) =~= strings(out@));
    while i < v.len()
        invariant
            i <= v.len(),
            out@.len() == i,
            ascending(strings(out@)),
            strings(out@).to_multiset() == strings(v@.take(i as int)).to_multiset(),
            strings(out@) == sorted(strings(v@.take(i as int))),
        decreases v.len() - i,
    {
        insert_ordered(&mut out, v[i].clone());
        proof {
            let prefix = strings(v@.take(i as int));
            let longer = strings(v@.take(i + 1));
            assert(longer =~= prefix.push(v@[i as int]@));
            assert(longer.drop_last() =~= prefix);
            prefix.to_multiset_ensures();
        }
        i += 1;
    }
    assert(v@.take(i as int) =~= v@);
    out
}

// ---------- words and lines that are put together read back ----------

/// A word: not empty and without white space.
pub open spec fn plain_word(w: Seq<char>) -> bool {
    w.len() > 0 && forall|i: int| 0 <= i < w.len() ==> !is_white(#[trigger] w[i])
}

/// All of them are words.
pub open spec fn plain_words(ws: Seq<Seq<char>>) -> bool {
    forall|i: int| 0 <= i < ws.len() ==> plain_word(#[trigger] ws[i])
}

/// Words with a blank between neighbours.
pub open spec fn spaced(ws: Seq<Seq<char>>) -> Seq<char>
    decreases ws.len(),
{
    if ws.len() == 0 {
        Seq::empty()
    } else if ws.len() == 1 {
        ws[0]
    } else {
        ws[0] + seq![' '] + spaced(ws.drop_first())
    }
}

proof fn lemma_white_shift(p: Seq<char>, t: Seq<char>, i: int)
    requires
        0 <= i <= t.len(),
    ensures
        skip_white_from(p + t, p.len() + i) == p.len() + skip_white_from(t, i),
    decreases t.len() - i,
{
    if i < t.len() {
        assert((p + t)[p.len() + i] == t[i]);
        if is_white(t[i]) {
            lemma_white_shift(p, t, i + 1);
        }
    }
}

proof fn lemma_word_shift(p: Seq<char>, t: Seq<char>, i: int)
    requires
        0 <= i <= t.len(),
    ensures
        skip_word_from(p + t, p.len() + i) == p.len() + skip_word_from(t, i),
    decreases t.len() - i,
{
    if i < t.len() {
        assert((p + t)[p.len() + i] == t[i]);
        if !is_white(t[i]) {
            lemma_word_shift(p, t, i + 1);
        }
    }
}

proof fn lemma_words_shift(p: Seq<char>, t: Seq<char>, i: int)
    requires
        0 <= i <= t.len(),
    ensures
        words_from(p + t, p.len() + i) == words_from(t, i),
    decreases t.len() - i,
{
    let start = skip_white_from(t, i);
    lemma_skip_white(t, i);
    lemma_white_shift(p, t, i);
    lemma_word_shift(p, t, start);
    let end = skip_word_from(t, start);
    lemma_skip_word(t, start);
    if start < end {
        lemma_words_shift(p, t, end);
        assert((p + t).subrange(p.len() + start, p.len() + end) =~= t.subrange(start, end));
    }
}

proof fn lemma_word_ends(s: Seq<char>, i: int, end: int)
    requires
        0 <= i <= end <= s.len(),
        forall|k: int| i <= k < end ==> !is_white(#[trigger] s[k]),
        end < s.len() ==> is_white(s[end]),
    ensures
        skip_word_from(s, i) == end,
    decreases end - i,
{
    if i < end {
        lemma_word_ends(s, i + 1, end);
    }
}

/// Words with blanks between them are read back as they are.
pub proof fn spaced_words_read_back(ws: Seq<Seq<char>>)
    requires
        plain_words(ws),
    ensures
        words(spaced(ws)) == ws,
    decreases ws.len(),
{
    let s = spaced(ws);
    if ws.len() == 0 {
        assert(words_from(s, 0) =~= ws);
    } else {
        let w = ws[0];
        let n = w.len() as int;
        assert(plain_word(w));
        assert(forall|k: int| 0 <= k < n ==> #[trigger] s[k] == w[k]);
        assert(!is_white(s[0])) by {
            assert(s[0] == w[0]);
        }
        assert(skip_white_from(s, 0) == 0);
        assert forall|k: int| 0 <= k < n implies !is_white(#[trigger] s[k]) by {
            assert(s[k] == w[k]);
        }
        lemma_word_ends(s, 0, n);
        assert(s.subrange(0, n) =~= w);
        if ws.len() == 1 {
            assert(words_from(s, n) =~= Seq::<Seq<char>>::empty());
            assert(words(s) =~= ws);
        } else {
            let rest = ws.drop_first();
            assert forall|i: int| 0 <= i < rest.len() implies plain_word(#[trigger] rest[i]) by {
                assert(rest[i] == ws[i + 1]);
            }
            spaced_words_read_back(rest);
            let head = w + seq![' '];
            assert(s =~= head + spaced(rest));
            lemma_words_shift(head, spaced(rest), 0);
            assert(s[n] == ' ');
            assert(skip_white_from(s, n) == skip_white_from(s, n + 1));
            assert(words_from(s, n) == words_from(s, n + 1)) by {
                lemma_skip_white(s, n + 1);
            }
            assert(words(s) =~= seq![w] + rest);
            assert(seq![w] + rest =~= ws);
        }
    }
}

proof fn lemma_dash_shift(w: Seq<char>, rest: Seq<char>, k: int)
    requires
        0 <= k,
    ensures
        stands_at(w + rest, " - "@, w.len() + k) == stands_at(rest, " - "@, k),
{
    reveal_strlit(" - ");
    let s = w + rest;
    if k + 3 <= rest.len() {
        assert(s.subrange(w.len() + k, w.len() + k + 3) =~= rest.subrange(k, k + 3));
    }
}

proof fn lemma_no_lone_dash(ws: Seq<Seq<char>>, tail: Seq<char>, k: int)
    requires
        plain_words(ws),
        ws.len() > 0,
        forall|i: int| 0 <= i < ws.len() ==> #[trigger] ws[i] != seq!['-'],
        0 <= k < spaced(ws).len(),
    ensures
        !stands_at(spaced(ws) + " - "@ + tail, " - "@, k),
    decreases ws.len(),
{
    reveal_strlit(" - ");
    let s = spaced(ws) + " - "@ + tail;
    let w = ws[0];
    let n = w.len() as int;
    assert(plain_word(w));
    let here = s.subrange(k, k + 3);
    if k < n {
        assert(s[k] == w[k]);
        if stands_at(s, " - "@, k) {
            assert(here[0] == s[k]);
        }
    } else {
        let rest = ws.drop_first();
        assert forall|i: int| 0 <= i < rest.len() implies plain_word(#[trigger] rest[i])
            && rest[i] != seq!['-'] by {
            assert(rest[i] == ws[i + 1]);
        }
        let behind = spaced(rest) + " - "@ + tail;
        let head = w + seq![' '];
        assert(s =~= head + behind);
        if k == n {
            let next = rest[0];
            assert(plain_word(next));
            assert(behind[0] == next[0]);
            if stands_at(s, " - "@, k) {
                assert(here[1] == s[k + 1] && here[2] == s[k + 2]);
                assert(s[k + 1] == behind[0] && s[k + 2] == behind[1]);
                if next.len() >= 2 {
                    assert(behind[1] == next[1]);
                    assert(!is_white(next[1]));
                } else {
                    assert(next =~= seq!['-']);
                }
            }
        } else {
            lemma_no_lone_dash(rest, tail, k - n - 1);
            lemma_dash_shift(head, behind, k - n - 1);
        }
    }
}

proof fn lemma_first_stand(s: Seq<char>, pat: Seq<char>, i: int, m: int)
    requires
        0 <= i <= m <= s.len(),
        stands_at(s, pat, m),
        forall|k: int| i <= k < m ==> !#[trigger] stands_at(s, pat, k),
    ensures
        find_from(s, pat, i) == Some(m),
    decreases m - i,
{
    if i < m {
        lemma_first_stand(s, pat, i + 1, m);
    }
}

/// A line whose words before a lone dash are no dash themselves is cut at that
/// dash.
pub proof fn dashed_lines_are_cut_at_the_dash(ws: Seq<Seq<char>>, tail: Seq<char>)
    requires
        plain_words(ws),
        ws.len() > 0,
        forall|i: int| 0 <= i < ws.len() ==> #[trigger] ws[i] != seq!['-'],
    ensures
        cut(spaced(ws) + " - "@ + tail, " - "@) == Some((spaced(ws), tail)),
{
    reveal_strlit(" - ");
    let left = spaced(ws);
    let s = left + " - "@ + tail;
    let m = left.len() as int;
    assert(s.subrange(m, m + 3) =~= " - "@);
    assert forall|k: int| 0 <= k < m implies !#[trigger] stands_at(s, " - "@, k) by {
        lemma_no_lone_dash(ws, tail, k);
    }
    lemma_first_stand(s, " - "@, 0, m);
    assert(s.subrange(0, m) =~= left);
    assert(s.subrange(m + 3, s.len() as int) =~= tail);
}

/// Lines with a line feed behind each are read back as they are.
pub open spec fn fed(ls: Seq<Seq<char>>) -> Seq<char>
    decreases ls.len(),
{
    if ls.len() == 0 {
        Seq::empty()
    } else {
        ls[0] + seq!['\n'] + fed(ls.drop_first())
    }
}

proof fn lemma_first_shift(p: Seq<char>, t: Seq<char>, c: char, i: int)
    requires
        0 <= i <= t.len(),
    ensures
        first_from(p + t, c, p.len() + i) == p.len() + first_from(t, c, i),
    decreases t.len() - i,
{
    if i < t.len() {
        assert((p + t)[p.len() + i] == t[i]);
        if t[i] != c {
            lemma_first_shift(p, t, c, i + 1);
        }
    }
}

proof fn lemma_lines_shift(p: Seq<char>, t: Seq<char>, i: int)
    requires
        0 <= i <= t.len(),
    ensures
        lines_from(p + t, p.len() + i) == lines_from(t, i),
    decreases t.len() - i,
{
    lemma_first_shift(p, t, '\n', i);
    lemma_first_from(t, '\n', i);
    let j = first_from(t, '\n', i);
    if i < t.len() {
        if j < t.len() {
            lemma_lines_shift(p, t, j + 1);
            assert((p + t).subrange(p.len() + i, p.len() + j) =~= t.subrange(i, j));
        } else {
            assert((p + t).subrange(p.len() + i, (p + t).len() as int) =~= t.subrange(
                i,
                t.len() as int,
            ));
        }
    }
}

proof fn lemma_first_is(s: Seq<char>, c: char, i: int, m: int)
    requires
        0 <= i <= m < s.len(),
        s[m] == c,
        forall|k: int| i <= k < m ==> #[trigger] s[k] != c,
    ensures
        first_from(s, c, i) == m,
    decreases m - i,
{
    if i < m {
        lemma_first_is(s, c, i + 1, m);
    }
}

/// Lines with a line feed behind each are read back as they are, where none
/// holds a line feed or ends with a carriage return.
pub proof fn fed_lines_read_back(ls: Seq<Seq<char>>)
    requires
        forall|i: int|
            0 <= i < ls.len() ==> !(#[trigger] ls[i]).contains('\n') && (ls[i].len() > 0
                ==> ls[i].last() != '\r'),
    ensures
        lines(fed(ls)) == ls,
    decreases ls.len(),
{
    let s = fed(ls);
    if ls.len() == 0 {
        assert(lines(s) =~= ls);
    } else {
        let line = ls[0];
        let n = line.len() as int;
        let rest = ls.drop_first();
        let head = line + seq!['\n'];
        assert forall|i: int| 0 <= i < rest.len() implies !(#[trigger] rest[i]).contains('\n') && (
        rest[i].len() > 0 ==> rest[i].last() != '\r') by {
            assert(rest[i] == ls[i + 1]);
        }
        fed_lines_read_back(rest);
        assert(s =~= head + fed(rest));
        lemma_lines_shift(head, fed(rest), 0);
        assert(!ls[0].contains('\n'));
        assert forall|k: int| 0 <= k < n implies #[trigger] s[k] != '\n' by {
            assert(s[k] == line[k]);
            assert(line.contains(line[k]));
        }
        assert(s[n] == '\n');
        lemma_first_is(s, '\n', 0, n);
        assert(s.subrange(0, n) =~= line);
        assert(lines(s) =~= seq![line] + rest);
        assert(seq![line] + rest =~= ls);
    }
}

/// The first character of a text that is not white space stands first once the
/// text is trimmed; a text of words loses nothing.
pub proof fn spaced_words_need_no_trimming(ws: Seq<Seq<char>>)
    requires
        plain_words(ws),
        ws.len() > 0,
    ensures
        trimmed(spaced(ws)) == spaced(ws),
        spaced(ws).len() > 0,
        !is_white(spaced(ws)[0]),
        !is_white(spaced(ws).last()),
{
    let s = spaced(ws);
    lemma_spaced_ends(ws);
    assert(skip_white_from(s, 0) == 0);
    assert(trim_end_at(s, s.len() as int) == s.len());
    assert(s.subrange(0, s.len() as int) =~= s);
}

proof fn lemma_spaced_ends(ws: Seq<Seq<char>>)
    requires
        plain_words(ws),
        ws.len() > 0,
    ensures
        spaced(ws).len() > 0,
        !is_white(spaced(ws)[0]),
        !is_white(spaced(ws).last()),
    decreases ws.len(),
{
    assert(plain_word(ws[0]));
    assert(spaced(ws)[0] == ws[0][0]);
    if ws.len() > 1 {
        let rest = ws.drop_first();
        assert forall|i: int| 0 <= i < rest.len() implies plain_word(#[trigger] rest[i]) by {
            assert(rest[i] == ws[i + 1]);
        }
        lemma_spaced_ends(rest);
        assert(spaced(ws).last() == spaced(rest).last());
    } else {
        assert(spaced(ws).last() == ws[0][ws[0].len() - 1]);
    }
}

/// The decimal numeral of a number is a word of digits, and is read back where
/// the number is not too large.
pub proof fn numerals_are_read_up_to_a_limit(n: nat, max: nat)
    ensures
        decimal(n).len() > 0,
        all_digits(decimal(n)),
        plain_word(decimal(n)),
        parsed_upto(decimal(n), max) == if n <= max {
            Some(n)
        } else {
            None
        },
{
    lemma_decimal_digits(n);
    numerals_read_back(n);
    assert forall|i: int| 0 <= i < decimal(n).len() implies !is_white(#[trigger] decimal(n)[i]) by {
        assert(is_digit(decimal(n)[i]));
    }
}

/// Different numbers have different numerals.
pub proof fn numerals_tell_their_number(m: nat, n: nat)
    requires
        decimal(m) == decimal(n),
    ensures
        m == n,
{
    numerals_read_back(m);
    numerals_read_back(n);
}

/// A text that is a number holds a digit and, but for one plus sign in front,
/// nothing else.
pub proof fn only_digits_make_a_number(s: Seq<char>, max: nat, i: int)
    requires
        parsed_upto(s, max) is Some,
        0 <= i < s.len(),
    ensures
        is_digit(s[i]) || (i == 0 && s[i] == '+' && s.len() > 1),
        parsed_upto(s, max)->Some_0 <= max,
{
    let d = numeral(s);
    if s.len() > 1 && s[0] == '+' {
        if i > 0 {
            assert(d[i - 1] == s[i]);
        }
    } else {
        assert(d[i] == s[i]);
    }
}

/// What was put behind a prefix is what follows it.
pub proof fn prefixes_come_off(prefix: Seq<char>, rest: Seq<char>)
    ensures
        starts_with(prefix + rest, prefix),
        after_prefix(prefix + rest, prefix) == Some(rest),
{
    let s = prefix + rest;
    assert(s.subrange(0, prefix.len() as int) =~= prefix);
    assert(s.subrange(prefix.len() as int, s.len() as int) =~= rest);
}

/// A text is cut at the first occurrence of a character.
pub proof fn texts_are_cut_at_the_first_mark(a: Seq<char>, c: char, b: Seq<char>)
    requires
        !a.contains(c),
    ensures
        cut(a + seq![c] + b, seq![c]) == Some((a, b)),
{
    let s = a + seq![c] + b;
    let m = a.len() as int;
    assert(s.subrange(m, m + 1) =~= seq![c]);
    assert forall|k: int| 0 <= k < m implies !#[trigger] stands_at(s, seq![c], k) by {
        assert(s.subrange(k, k + 1)[0] == a[k]);
        assert(a.contains(a[k]));
    }
    lemma_first_stand(s, seq![c], 0, m);
    assert(s.subrange(0, m) =~= a);
    assert(s.subrange(m + 1, s.len() as int) =~= b);
}

/// A text without the character is not cut.
pub proof fn texts_without_the_mark_are_whole(s: Seq<char>, c: char)
    requires
        !s.contains(c),
    ensures
        cut(s, seq![c]) is None,
{
    lemma_mark_missing(s, c, 0);
}

proof fn lemma_mark_missing(s: Seq<char>, c: char, i: int)
    requires
        !s.contains(c),
        0 <= i <= s.len() + 1,
    ensures
        find_from(s, seq![c], i) is None,
    decreases s.len() + 1 - i,
{
    if i <= s.len() {
        lemma_mark_missing(s, c, i + 1);
        if i < s.len() {
            assert(s.subrange(i, i + 1)[0] == s[i]);
            assert(s.contains(s[i]));
        }
    }
}

/// The line feed behind a word is no part of it.
pub proof fn line_feeds_are_trimmed(w: Seq<char>)
    requires
        plain_word(w),
    ensures
        trimmed(w) == w,
        trimmed(w + seq!['\n']) == w,
{
    let s = w + seq!['\n'];
    assert(!is_white(w[0]) && !is_white(w[w.len() - 1]));
    assert(w.subrange(0, w.len() as int) =~= w);
    assert(skip_white_from(w, 0) == 0);
    assert(trim_end_at(w, w.len() as int) == w.len());
    assert(s[0] == w[0]);
    assert(skip_white_from(s, 0) == 0);
    assert(s[s.len() - 1] == '\n');
    assert(s[s.len() - 2] == w[w.len() - 1]);
    assert(trim_end_at(s, s.len() as int) == trim_end_at(s, w.len() as int));
    assert(trim_end_at(s, w.len() as int) == w.len());
    assert(s.subrange(0, w.len() as int) =~= w);
}

/// A list with a separator between neighbours.
pub open spec fn listed(ws: Seq<Seq<char>>, sep: char) -> Seq<char>
    decreases ws.len(),
{
    if ws.len() == 0 {
        Seq::empty()
    } else if ws.len() == 1 {
        ws[0]
    } else {
        ws[0] + seq![sep] + listed(ws.drop_first(), sep)
    }
}

proof fn lemma_split_shift(p: Seq<char>, t: Seq<char>, sep: char, i: int)
    requires
        0 <= i <= t.len(),
    ensures
        split_from(p + t, sep, p.len() + i) == split_from(t, sep, i),
    decreases t.len() - i,
{
    lemma_first_shift(p, t, sep, i);
    lemma_first_from(t, sep, i);
    let j = first_from(t, sep, i);
    if j < t.len() {
        lemma_split_shift(p, t, sep, j + 1);
        assert((p + t).subrange(p.len() + i, p.len() + j) =~= t.subrange(i, j));
    } else {
        assert((p + t).subrange(p.len() + i, (p + t).len() as int) =~= t.subrange(
            i,
            t.len() as int,
        ));
    }
}

/// A list is split into the items that it was made of.
pub proof fn lists_are_split_into_their_items(ws: Seq<Seq<char>>, sep: char)
    requires
        ws.len() > 0,
        forall|i: int| 0 <= i < ws.len() ==> !(#[trigger] ws[i]).contains(sep),
    ensures
        split(listed(ws, sep), sep) == ws,
    decreases ws.len(),
{
    let s = listed(ws, sep);
    let w = ws[0];
    let n = w.len() as int;
    assert(!ws[0].contains(sep));
    assert forall|k: int| 0 <= k < n implies #[trigger] s[k] != sep by {
        assert(s[k] == w[k]);
        assert(w.contains(w[k]));
    }
    if ws.len() == 1 {
        lemma_first_from(s, sep, 0);
        assert(s.subrange(0, s.len() as int) =~= w);
        assert(split(s, sep) =~= ws);
    } else {
        let rest = ws.drop_first();
        let head = w + seq![sep];
        assert forall|i: int| 0 <= i < rest.len() implies !(#[trigger] rest[i]).contains(sep) by {
            assert(rest[i] == ws[i + 1]);
        }
        lists_are_split_into_their_items(rest, sep);
        assert(s =~= head + listed(rest, sep));
        assert(s[n] == sep);
        lemma_first_is(s, sep, 0, n);
        lemma_split_shift(head, listed(rest, sep), sep, 0);
        assert(s.subrange(0, n) =~= w);
        assert(split(s, sep) =~= seq![w] + rest);
        assert(seq![w] + rest =~= ws);
    }
}

/// The classes of characters, by their ranges.
pub proof fn characters_are_classed_by_range(c: char)
    ensures
        is_digit(c) <==> '0' <= c <= '9',
        is_lower(c) <==> 'a' <= c <= 'z',
        is_alnum(c) <==> '0' <= c <= '9' || 'a' <= c <= 'z' || 'A' <= c <= 'Z',
        is_hex(c) <==> '0' <= c <= '9' || 'a' <= c <= 'f' || 'A' <= c <= 'F',
        is_control(c) <==> (c as u32) < 0x20 || 0x7f <= (c as u32) <= 0x9f,
        c == ' ' || c == '\t' || c == '\n' || c == '\r' ==> is_white(c),
        is_alnum(c) || c == '/' || c == '-' || c == ':' || c == '.' || c == '_' ==> !is_white(c),
{
}

/// Lines with a carriage return and a line feed behind each.
pub open spec fn returned(ls: Seq<Seq<char>>) -> Seq<char>
    decreases ls.len(),
{
    if ls.len() == 0 {
        Seq::empty()
    } else {
        ls[0] + seq!['\r', '\n'] + returned(ls.drop_first())
    }
}

/// Lines that end with a carriage return and a line feed come apart at these;
/// behind the last stands nothing.
pub proof fn returned_lines_come_apart(ls: Seq<Seq<char>>)
    requires
        forall|i: int| 0 <= i < ls.len() ==> !(#[trigger] ls[i]).contains('\r'),
    ensures
        pieces(returned(ls), seq!['\r', '\n']) == ls.push(Seq::empty()),
    decreases ls.len(),
{
    let s = returned(ls);
    let pat = seq!['\r', '\n'];
    if ls.len() == 0 {
        reveal_with_fuel(find_from, 3);
        assert(!stands_at(s, pat, 0));
        assert(pieces(s, pat) =~= ls.push(Seq::empty()));
    } else {
        let a = ls[0];
        let rest = ls.drop_first();
        let b = returned(rest);
        let m = a.len() as int;
        assert(s.subrange(m, m + 2) =~= pat);
        assert forall|k: int| 0 <= k < m implies !#[trigger] stands_at(s, pat, k) by {
            if stands_at(s, pat, k) {
                assert(s.subrange(k, k + 2)[0] == '\r');
                assert(s[k] == a[k]);
                assert(a.contains(a[k]));
            }
        }
        lemma_first_stand(s, pat, 0, m);
        assert(s.subrange(0, m) =~= a);
        assert(s.subrange(m + 2, s.len() as int) =~= b);
        assert forall|i: int| 0 <= i < rest.len() implies !(#[trigger] rest[i]).contains('\r') by {
            assert(rest[i] == ls[i + 1]);
        }
        returned_lines_come_apart(rest);
        assert(pieces(s, pat) =~= seq![a] + rest.push(Seq::empty()));
        assert(seq![a] + rest.push(Seq::empty()) =~= ls.push(Seq::empty()));
    }
}

/// The blank before a text is no part of it.
pub proof fn blanks_before_are_trimmed(v: Seq<char>)
    requires
        v.len() > 0,
        !is_white(v[0]),
        !is_white(v.last()),
    ensures
        trimmed(v) == v,
        trimmed(seq![' '] + v) == v,
{
    let s = seq![' '] + v;
    assert(skip_white_from(v, 0) == 0);
    assert(trim_end_at(v, v.len() as int) == v.len());
    assert(v.subrange(0, v.len() as int) =~= v);
    characters_are_classed_by_range(' ');
    assert(s[0] == ' ');
    assert(s[1] == v[0]);
    assert(skip_white_from(s, 1) == 1);
    assert(skip_white_from(s, 0) == 1);
    assert(s[s.len() - 1] == v.last());
    assert(trim_end_at(s, s.len() as int) == s.len());
    assert(s.subrange(1, s.len() as int) =~= v);
}

proof fn lemma_common_front(p: Seq<char>, x: Seq<char>, y: Seq<char>, i: int)
    requires
        0 <= i <= p.len(),
    ensures
        less_from(p + x, p + y, i) == less_from(p + x, p + y, p.len() as int),
    decreases p.len() - i,
{
    if i < p.len() {
        lemma_common_front(p, x, y, i + 1);
        assert((p + x)[i] == p[i]);
        assert((p + y)[i] == p[i]);
    }
}

/// Two texts are ordered at their first difference; a text comes before each of
/// its continuations.
pub proof fn texts_are_ordered_at_their_first_difference(
    p: Seq<char>,
    a: char,
    s: Seq<char>,
    b: char,
    t: Seq<char>,
)
    requires
        a != b,
    ensures
        less(p + (seq![a] + s), p + (seq![b] + t)) <==> a < b,
        less(p, p + (seq![a] + s)),
        !less(p + s, p),
{
    let x = seq![a] + s;
    let y = seq![b] + t;
    lemma_common_front(p, x, y, 0);
    assert((p + x)[p.len() as int] == a);
    assert((p + y)[p.len() as int] == b);
    lemma_common_front(p, Seq::empty(), x, 0);
    assert(p + Seq::<char>::empty() =~= p);
    lemma_common_front(p, s, Seq::empty(), 0);
}

proof fn lemma_placed_in_order(v: Seq<Seq<char>>, word: Seq<char>)
    requires
        ascending(v),
    ensures
        ascending(placed(v, word)),
        placed(v, word).to_multiset() == v.to_multiset().insert(word),
        forall|k: int|
            0 <= k < placed(v, word).len() ==> #[trigger] placed(v, word)[k] == word || v.contains(
                placed(v, word)[k],
            ),
    decreases v.len(),
{
    v.to_multiset_ensures();
    let out = placed(v, word);
    if v.len() > 0 && less(word, v.last()) {
        let front = v.drop_last();
        let last = v.last();
        assert(ascending(front));
        lemma_placed_in_order(front, word);
        let inner = placed(front, word);
        front.to_multiset_ensures();
        inner.to_multiset_ensures();
        assert(v =~= front.push(last));
        assert(v.to_multiset() =~= front.to_multiset().insert(last));
        assert(out.to_multiset() =~= v.to_multiset().insert(word));
        assert forall|i: int, j: int| 0 <= i < j < out.len() implies !less(
            #[trigger] out[j],
            #[trigger] out[i],
        ) by {
            if j == out.len() - 1 {
                assert(out[i] == inner[i]);
                if inner[i] == word {
                    dictionary_order_is_total(word, last, last);
                } else {
                    let k = front.index_of(inner[i]);
                    assert(v[k] == inner[i]);
                    assert(!less(v[v.len() - 1], v[k]));
                }
            } else {
                assert(!less(inner[j], inner[i]));
            }
        }
        assert forall|k: int| 0 <= k < out.len() implies #[trigger] out[k] == word || v.contains(
            out[k],
        ) by {
            if k < inner.len() {
                assert(out[k] == inner[k]);
                if inner[k] != word {
                    let m = front.index_of(inner[k]);
                    assert(v[m] == inner[k]);
                }
            } else {
                assert(v[v.len() - 1] == last);
            }
        }
    } else {
        assert forall|i: int, j: int| 0 <= i < j < out.len() implies !less(
            #[trigger] out[j],
            #[trigger] out[i],
        ) by {
            if j == v.len() {
                if i < v.len() - 1 {
                    assert(!less(v[v.len() - 1], v[i]));
                    dictionary_order_is_total(v[i], v.last(), word);
                }
            } else {
                assert(!less(v[j], v[i]));
            }
        }
        assert forall|k: int| 0 <= k < out.len() implies #[trigger] out[k] == word || v.contains(
            out[k],
        ) by {
            if k < v.len() {
                assert(v.contains(v[k]));
            }
        }
    }
}

/// Sorting puts texts in dictionary order, and neither loses nor adds one.
pub proof fn sorting_keeps_every_text(v: Seq<Seq<char>>)
    ensures
        ascending(sorted(v)),
        sorted(v).to_multiset() == v.to_multiset(),
    decreases v.len(),
{
    if v.len() > 0 {
        sorting_keeps_every_text(v.drop_last());
        lemma_placed_in_order(sorted(v.drop_last()), v.last());
        v.drop_last().to_multiset_ensures();
        assert(v =~= v.drop_last().push(v.last()));
        assert(v.to_multiset() =~= v.drop_last().to_multiset().insert(v.last()));
    } else {
        assert(v =~= Seq::<Seq<char>>::empty());
    }
}

/// A character is replaced wherever it stands, and nothing else is.
pub proof fn characters_are_replaced_everywhere(s: Seq<char>, t: Seq<char>, c: char, by: Seq<char>)
    ensures
        replaced(s + t, c, by) == replaced(s, c, by) + replaced(t, c, by),
        replaced(seq![c], c, by) == by,
        !s.contains(c) ==> replaced(s, c, by) == s,
    decreases s.len() + t.len(),
{
    let one = seq![c];
    assert(one.drop_last() =~= Seq::<char>::empty());
    assert(replaced(one.drop_last(), c, by) =~= Seq::<char>::empty());
    assert(replaced(one, c, by) =~= by);
    if t.len() == 0 {
        assert(s + t =~= s);
        assert(replaced(s, c, by) + replaced(t, c, by) =~= replaced(s, c, by));
        if s.len() > 0 && !s.contains(c) {
            let front = s.drop_last();
            assert(s.last() != c) by {
                assert(s.contains(s.last()));
            }
            assert(!front.contains(c)) by {
                if front.contains(c) {
                    assert(s[front.index_of(c)] == c);
                }
            }
            characters_are_replaced_everywhere(front, t, c, by);
            assert(replaced(s, c, by) =~= s);
        } else if s.len() == 0 {
            assert(replaced(s, c, by) =~= s);
        }
    } else {
        let front = t.drop_last();
        characters_are_replaced_everywhere(s, front, c, by);
        assert((s + t).drop_last() =~= s + front);
        assert((s + t).last() == t.last());
        assert(replaced(s + t, c, by) =~= replaced(s, c, by) + replaced(t, c, by));
    }
}

/// Texts joined by a character are the list with that character between its
/// items.
pub proof fn joined_texts_are_lists(ws: Seq<Seq<char>>, sep: char)
    ensures
        joined(ws, seq![sep]) == listed(ws, sep),
    decreases ws.len(),
{
    if ws.len() > 1 {
        let front = ws.drop_last();
        joined_texts_are_lists(front, sep);
        lemma_listed_last(ws, sep);
    } else if ws.len() == 0 {
        assert(joined(ws, seq![sep]) =~= listed(ws, sep));
    }
}

proof fn lemma_listed_last(ws: Seq<Seq<char>>, sep: char)
    requires
        ws.len() > 1,
    ensures
        listed(ws, sep) == listed(ws.drop_last(), sep) + seq![sep] + ws.last(),
    decreases ws.len(),
{
    let rest = ws.drop_first();
    if ws.len() == 2 {
        assert(listed(rest, sep) == ws[1]);
        assert(listed(ws.drop_last(), sep) == ws[0]);
    } else {
        lemma_listed_last(rest, sep);
        assert(rest.drop_last() =~= ws.drop_last().drop_first());
        assert(rest.last() == ws.last());
        assert(listed(ws, sep) =~= listed(ws.drop_last(), sep) + seq![sep] + ws.last());
    }
}

/// A carriage return before the line feed belongs to the line's end.
pub proof fn returned_lines_read_back(ls: Seq<Seq<char>>)
    requires
        forall|i: int| 0 <= i < ls.len() ==> !(#[trigger] ls[i]).contains('\n'),
    ensures
        lines(returned(ls)) == ls,
    decreases ls.len(),
{
    let s = returned(ls);
    if ls.len() == 0 {
        assert(lines(s) =~= ls);
    } else {
        let line = ls[0];
        let n = line.len() as int;
        let rest = ls.drop_first();
        let head = line + seq!['\r', '\n'];
        assert forall|i: int| 0 <= i < rest.len() implies !(#[trigger] rest[i]).contains('\n') by {
            assert(rest[i] == ls[i + 1]);
        }
        returned_lines_read_back(rest);
        assert(s =~= head + returned(rest));
        lemma_lines_shift(head, returned(rest), 0);
        assert(!ls[0].contains('\n'));
        assert forall|k: int| 0 <= k < n + 1 implies #[trigger] s[k] != '\n' by {
            if k < n {
                assert(s[k] == line[k]);
                assert(line.contains(line[k]));
            }
        }
        assert(s[n + 1] == '\n');
        lemma_first_is(s, '\n', 0, n + 1);
        assert(s.subrange(0, n + 1) =~= line.push('\r'));
        assert(line.push('\r').drop_last() =~= line);
        assert(lines(s) =~= seq![line] + rest);
        assert(seq![line] + rest =~= ls);
    }
}

/// The last line need not be ended.
pub proof fn unended_lines_count(ls: Seq<Seq<char>>, last: Seq<char>)
    requires
        forall|i: int|
            0 <= i < ls.len() ==> !(#[trigger] ls[i]).contains('\n') && (ls[i].len() > 0
                ==> ls[i].last() != '\r'),
        last.len() > 0,
        !last.contains('\n'),
    ensures
        lines(fed(ls) + last) == ls.push(last),
    decreases ls.len(),
{
    let s = fed(ls) + last;
    if ls.len() == 0 {
        assert(s =~= last);
        assert forall|k: int| 0 <= k < s.len() implies #[trigger] s[k] != '\n' by {
            assert(last.contains(last[k]));
        }
        lemma_first_from(s, '\n', 0);
        assert(s.subrange(0, s.len() as int) =~= last);
        assert(lines(s) =~= ls.push(last));
    } else {
        let line = ls[0];
        let n = line.len() as int;
        let rest = ls.drop_first();
        let head = line + seq!['\n'];
        assert forall|i: int| 0 <= i < rest.len() implies !(#[trigger] rest[i]).contains('\n') && (
        rest[i].len() > 0 ==> rest[i].last() != '\r') by {
            assert(rest[i] == ls[i + 1]);
        }
        unended_lines_count(rest, last);
        assert(s =~= head + (fed(rest) + last));
        lemma_lines_shift(head, fed(rest) + last, 0);
        assert(!ls[0].contains('\n'));
        assert forall|k: int| 0 <= k < n implies #[trigger] s[k] != '\n' by {
            assert(s[k] == line[k]);
            assert(line.contains(line[k]));
        }
        assert(s[n] == '\n');
        lemma_first_is(s, '\n', 0, n);
        assert(s.subrange(0, n) =~= line);
        assert(lines(s) =~= seq![line] + rest.push(last));
        assert(seq![line] + rest.push(last) =~= ls.push(last));
    }
}

/// Lists of texts are shown in brackets, with a comma and a blank between them.
pub proof fn lists_are_shown_in_brackets(a: Seq<char>, b: Seq<char>)
    ensures
        quoted_list(Seq::empty()) == seq!['[', ']'],
        quoted_list(seq![a]) == seq!['['] + quoted(a) + seq![']'],
        quoted_list(seq![a, b]) == seq!['['] + quoted(a) + seq![',', ' '] + quoted(b) + seq![']'],
        quoted_option(None) == seq!['N', 'o', 'n', 'e'],
        quoted_option(Some(a)) == seq!['S', 'o', 'm', 'e', '('] + quoted(a) + seq![')'],
{
    reveal_strlit("[");
    reveal_strlit("]");
    reveal_strlit(", ");
    reveal_strlit("None");
    reveal_strlit("Some(");
    reveal_strlit(")");
    let f = |s: Seq<char>| quoted(s);
    let none = Seq::<Seq<char>>::empty().map_values(f);
    assert(none =~= Seq::<Seq<char>>::empty());
    assert(quoted_list(Seq::empty()) =~= seq!['[', ']']);
    let one = seq![a].map_values(f);
    assert(one =~= seq![quoted(a)]);
    assert(joined(one, ", "@) == quoted(a));
    assert(quoted_list(seq![a]) =~= seq!['['] + quoted(a) + seq![']']);
    let two = seq![a, b].map_values(f);
    assert(two =~= seq![quoted(a), quoted(b)]);
    assert(two.drop_last() =~= seq![quoted(a)]);
    assert(joined(two.drop_last(), ", "@) == quoted(a));
    assert(joined(two, ", "@) == quoted(a) + ", "@ + quoted(b));
    assert(quoted_list(seq![a, b]) =~= seq!['['] + quoted(a) + seq![',', ' '] + quoted(b) + seq![
        ']',
    ]);
    assert(quoted_option(None) =~= seq!['N', 'o', 'n', 'e']);
    assert(quoted_option(Some(a)) =~= seq!['S', 'o', 'm', 'e', '('] + quoted(a) + seq![')']);
}

} // verus!
