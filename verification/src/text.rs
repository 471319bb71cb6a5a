//! Character-level text handling shared by the parsers and the formatters.
//!
//! Strings are modelled by their sequence of characters; slices handed out are
//! described as sub-sequences of the input.

use vstd::prelude::*;

verus! {

/// `String::push` appends one character.
pub assume_specification[ String::push ](s: &mut String, c: char)
    ensures
        final(s)@ == old(s)@.push(c),
;

/// Equality of string slices is equality of their characters.
pub assume_specification[ <str as PartialEq>::eq ](s: &str, other: &str) -> (res: bool)
    ensures
        res == (s@ == other@),
;

/// The text of the error that `String::from_utf8` gives for a byte string.
pub uninterp spec fn utf8_error(bytes: Seq<u8>) -> Seq<char>;

/// `String::from_utf8` succeeds exactly on valid UTF-8 and then holds the decoded text. On
/// other bytes there is the text of its error, which depends on the bytes alone and is only
/// named.
#[verifier::external_body]
pub(crate) fn string_from_utf8(bytes: Vec<u8>) -> (r: Result<String, String>)
    ensures
        match r {
            Ok(s) => vstd::utf8::valid_utf8(bytes@) && s@ == vstd::utf8::decode_utf8(bytes@),
            Err(e) => !vstd::utf8::valid_utf8(bytes@) && e@ == utf8_error(bytes@),
        },
{
    match String::from_utf8(bytes) {
        Ok(s) => Ok(s),
        Err(e) => Err(e.to_string()),
    }
}

/// The text that `String::from_utf8_lossy` makes of a byte string.
pub uninterp spec fn utf8_lossy(bytes: Seq<u8>) -> Seq<char>;

/// `String::from_utf8_lossy` gives the decoded text of valid UTF-8. What stands in for
/// an invalid byte sequence is only named.
#[verifier::external_body]
pub(crate) fn string_from_utf8_lossy(bytes: &[u8]) -> (r: String)
    ensures
        r@ == utf8_lossy(bytes@),
        vstd::utf8::valid_utf8(bytes@) ==> r@ == vstd::utf8::decode_utf8(bytes@),
{
    String::from_utf8_lossy(bytes).into_owned()
}

/// Whether two strings hold the same characters.
pub fn str_eq(a: &str, b: &str) -> (r: bool)
    ensures
        r == (a@ == b@),
{
    a.eq(b)
}

/// The characters of a string.
pub fn to_chars(s: &str) -> (r: Vec<char>)
    ensures
        r@ == s@,
{
    let mut v: Vec<char> = Vec::new();
    for c in it: s.chars()
        invariant
            v@ == it.seq().take(it.index() as int),
    {
        v.push(c);
        assert(it.seq().take(it.index() + 1) == it.seq().take(it.index() as int).push(c));
    }
    v
}

/// The bytes of a string, in UTF-8.
pub fn to_bytes(s: &str) -> (r: Vec<u8>)
    ensures
        r@ == vstd::utf8::encode_utf8(s@),
{
    s.as_bytes_vec()
}

/// The number of bytes that a string takes in UTF-8.
pub fn byte_len(s: &str) -> (r: usize)
    ensures
        r == vstd::utf8::encode_utf8(s@).len(),
{
    s.as_bytes().len()
}

/// The characters of an optional text.
pub open spec fn opt_text(s: Option<String>) -> Option<Seq<char>> {
    match s {
        Some(s) => Some(s@),
        None => None,
    }
}

/// The characters of an optional string slice.
pub open spec fn opt_str(s: Option<&str>) -> Option<Seq<char>> {
    match s {
        Some(s) => Some(s@),
        None => None,
    }
}

/// The characters of an optional text, or of what stands in for it.
pub open spec fn text_or(s: Option<String>, other: Seq<char>) -> Seq<char> {
    match s {
        Some(s) => s@,
        None => other,
    }
}

/// Copies a list of texts.
pub fn copy_list(v: &Vec<String>) -> (r: Vec<String>)
    ensures
        r@ == v@,
{
    let mut out: Vec<String> = Vec::new();
    let mut i: usize = 0;
    while i < v.len()
        invariant
            i <= v@.len(),
            out@ == v@.take(i as int),
        decreases v@.len() - i,
    {
        out.push(v[i].clone());
        i = i + 1;
        assert(v@.take(i as int) == v@.take(i - 1).push(v@[i - 1]));
    }
    assert(v@.take(i as int) == v@);
    out
}

/// Whether a list of names holds a name.
pub fn list_contains(list: &Vec<String>, name: &str) -> (r: bool)
    ensures
        r == exists|i: int| 0 <= i < list@.len() && (#[trigger] list@[i])@ == name@,
{
    let mut i: usize = 0;
    while i < list.len()
        invariant
            i <= list@.len(),
            forall|j: int| 0 <= j < i ==> (#[trigger] list@[j])@ != name@,
        decreases list@.len() - i,
    {
        if str_eq(list[i].as_str(), name) {
            return true;
        }
        i = i + 1;
    }
    false
}

/// Copies an optional text.
pub fn copy_option(s: &Option<String>) -> (r: Option<String>)
    ensures
        r == *s,
{
    match s {
        Some(s) => Some(s.clone()),
        None => None,
    }
}

// ---------- white space ----------

/// The characters that Unicode gives the property White_Space.
pub open spec fn is_space(c: char) -> bool {
    let u = c as u32;
    ||| 0x9 <= u <= 0xd
    ||| u == 0x20 || u == 0x85 || u == 0xa0 || u == 0x1680
    ||| 0x2000 <= u <= 0x200a
    ||| u == 0x2028 || u == 0x2029 || u == 0x202f || u == 0x205f || u == 0x3000
}

/// Decides [`is_space`].
pub fn char_is_space(c: char) -> (r: bool)
    ensures
        r == is_space(c),
{
    let u = c as u32;
    (0x9 <= u && u <= 0xd) || u == 0x20 || u == 0x85 || u == 0xa0 || u == 0x1680 || (0x2000 <= u
        && u <= 0x200a) || u == 0x2028 || u == 0x2029 || u == 0x202f || u == 0x205f || u == 0x3000
}

/// `s` without its leading white space.
pub open spec fn trim_start(s: Seq<char>) -> Seq<char>
    decreases s.len(),
{
    if s.len() > 0 && is_space(s[0]) {
        trim_start(s.skip(1))
    } else {
        s
    }
}

/// `s` without its trailing white space.
pub open spec fn trim_end(s: Seq<char>) -> Seq<char>
    decreases s.len(),
{
    if s.len() > 0 && is_space(s.last()) {
        trim_end(s.drop_last())
    } else {
        s
    }
}

/// `s` without white space at either end.
pub open spec fn trimmed(s: Seq<char>) -> Seq<char> {
    trim_end(trim_start(s))
}

/// Removes white space at both ends of a string.
pub fn trim(s: &str) -> (r: &str)
    ensures
        r@ == trimmed(s@),
{
    let cs = to_chars(s);
    let n = cs.len();
    let mut a: usize = 0;
    assert(s@.skip(0) == s@);
    while a < n && char_is_space(cs[a])
        invariant
            a <= n,
            n == cs@.len(),
            cs@ == s@,
            trim_start(s@) == trim_start(s@.skip(a as int)),
        decreases n - a,
    {
        assert(s@.skip(a as int).skip(1) == s@.skip(a + 1));
        a = a + 1;
    }
    let mut b: usize = n;
    assert(trim_start(s@) == s@.skip(a as int));
    assert(s@.subrange(a as int, b as int) == s@.skip(a as int));
    while b > a && char_is_space(cs[b - 1])
        invariant
            a <= b <= n,
            n == cs@.len(),
            cs@ == s@,
            trimmed(s@) == trim_end(s@.subrange(a as int, b as int)),
        decreases b,
    {
        assert(s@.subrange(a as int, b as int).drop_last() == s@.subrange(a as int, b - 1));
        b = b - 1;
    }
    s.substring_char(a, b)
}

// ---------- ASCII case ----------

/// The lower-case form of an ASCII capital letter; any other character as it is.
pub open spec fn ascii_lower(c: char) -> char {
    if 'A' <= c <= 'Z' {
        ((c as u32) + 32) as char
    } else {
        c
    }
}

/// Equality up to the case of ASCII letters.
pub open spec fn eq_ignore_case(a: Seq<char>, b: Seq<char>) -> bool {
    &&& a.len() == b.len()
    &&& forall|i: int| 0 <= i < a.len() ==> ascii_lower(#[trigger] a[i]) == ascii_lower(b[i])
}

/// Computes [`ascii_lower`].
pub fn char_ascii_lower(c: char) -> (r: char)
    ensures
        r == ascii_lower(c),
{
    if 'A' <= c && c <= 'Z' {
        ((c as u8) + 32) as char
    } else {
        c
    }
}

/// Decides [`eq_ignore_case`].
pub fn eq_ignore_ascii_case(a: &str, b: &str) -> (r: bool)
    ensures
        r == eq_ignore_case(a@, b@),
{
    let x = to_chars(a);
    let y = to_chars(b);
    chars_eq_ignore_case(&x, &y)
}

/// Decides [`eq_ignore_case`] on character vectors.
pub(crate) fn chars_eq_ignore_case(x: &Vec<char>, y: &Vec<char>) -> (r: bool)
    ensures
        r == eq_ignore_case(x@, y@),
{
    if x.len() != y.len() {
        return false;
    }
    let mut i: usize = 0;
    while i < x.len()
        invariant
            i <= x@.len(),
            x@.len() == y@.len(),
            forall|j: int| 0 <= j < i ==> ascii_lower(#[trigger] x@[j]) == ascii_lower(y@[j]),
        decreases x@.len() - i,
    {
        if char_ascii_lower(x[i]) != char_ascii_lower(y[i]) {
            assert(ascii_lower(x@[i as int]) != ascii_lower(y@[i as int]));
            return false;
        }
        i = i + 1;
    }
    true
}

/// Case-insensitive equality is symmetric and transitive, and every text equals itself.
pub proof fn lemma_eq_ignore_case_equivalence(a: Seq<char>, b: Seq<char>, c: Seq<char>)
    ensures
        eq_ignore_case(a, a),
        eq_ignore_case(a, b) ==> eq_ignore_case(b, a),
        eq_ignore_case(a, b) && eq_ignore_case(b, c) ==> eq_ignore_case(a, c),
{
    if eq_ignore_case(a, b) {
        assert forall|i: int| 0 <= i < b.len() implies ascii_lower(#[trigger] b[i]) == ascii_lower(
            a[i],
        ) by {
            assert(ascii_lower(a[i]) == ascii_lower(b[i]));
        }
        if eq_ignore_case(b, c) {
            assert forall|i: int| 0 <= i < a.len() implies ascii_lower(#[trigger] a[i])
                == ascii_lower(c[i]) by {
                assert(ascii_lower(b[i]) == ascii_lower(c[i]));
            }
        }
    }
}

// ---------- prefixes, suffixes and parts ----------

/// Whether `s` begins with `p`.
pub fn starts_with(s: &str, p: &str) -> (r: bool)
    ensures
        r == p@.is_prefix_of(s@),
{
    let n = p.unicode_len();
    if n > s.unicode_len() {
        return false;
    }
    let head = s.substring_char(0, n);
    str_eq(head, p)
}

/// Whether a text begins with another one, whatever the case of ASCII letters.
pub open spec fn begins_ignoring_case(s: Seq<char>, p: Seq<char>) -> bool {
    p.len() <= s.len() && eq_ignore_case(s.take(p.len() as int), p)
}

/// Decides [`begins_ignoring_case`].
pub fn starts_with_ignoring_case(s: &str, p: &str) -> (r: bool)
    ensures
        r == begins_ignoring_case(s@, p@),
{
    let n = p.unicode_len();
    if n > s.unicode_len() {
        return false;
    }
    eq_ignore_ascii_case(s.substring_char(0, n), p)
}

/// Whether `s` ends with `p`.
pub fn ends_with(s: &str, p: &str) -> (r: bool)
    ensures
        r == p@.is_suffix_of(s@),
{
    let n = p.unicode_len();
    let m = s.unicode_len();
    if n > m {
        return false;
    }
    let tail = s.substring_char(m - n, m);
    str_eq(tail, p)
}

/// What follows `p` in `s`, where `s` begins with `p`.
pub fn strip_prefix<'a>(s: &'a str, p: &str) -> (r: Option<&'a str>)
    ensures
        r is Some <==> p@.is_prefix_of(s@),
        r matches Some(t) ==> t@ == s@.skip(p@.len() as int),
{
    if starts_with(s, p) {
        Some(s.substring_char(p.unicode_len(), s.unicode_len()))
    } else {
        None
    }
}

/// The index of the first `c` in `s`, or the length of `s` where there is none.
pub open spec fn find_char(s: Seq<char>, c: char) -> int
    decreases s.len(),
{
    if s.len() == 0 || s[0] == c {
        0
    } else {
        1 + find_char(s.skip(1), c)
    }
}

/// [`find_char`] is the position before which `c` does not occur.
pub proof fn lemma_find_char(s: Seq<char>, c: char, k: int)
    requires
        0 <= k <= s.len(),
        forall|i: int| 0 <= i < k ==> s[i] != c,
        k == s.len() || s[k] == c,
    ensures
        find_char(s, c) == k,
    decreases s.len(),
{
    if k > 0 {
        assert forall|i: int| 0 <= i < k - 1 implies s.skip(1)[i] != c by {
            assert(s[i + 1] != c);
        }
        lemma_find_char(s.skip(1), c, k - 1);
    }
}

/// The index of the first `c` from position `from` on, or the length.
fn index_of(cs: &Vec<char>, from: usize, c: char) -> (r: usize)
    requires
        from <= cs@.len(),
    ensures
        from <= r <= cs@.len(),
        r == from + find_char(cs@.skip(from as int), c),
        forall|i: int| from <= i < r ==> cs@[i] != c,
        r == cs@.len() || cs@[r as int] == c,
{
    let mut k: usize = from;
    while k < cs.len() && cs[k] != c
        invariant
            from <= k <= cs@.len(),
            forall|i: int| from <= i < k ==> cs@[i] != c,
        decreases cs@.len() - k,
    {
        k = k + 1;
    }
    proof {
        lemma_find_char(cs@.skip(from as int), c, k - from);
    }
    k
}

/// The part of `s` before the first `c`; all of `s` where there is no `c`.
pub open spec fn before_first(s: Seq<char>, c: char) -> Seq<char> {
    s.take(find_char(s, c))
}

/// Computes [`before_first`].
pub fn split_first(s: &str, c: char) -> (r: &str)
    ensures
        r@ == before_first(s@, c),
{
    let cs = to_chars(s);
    assert(cs@.skip(0) == cs@);
    let k = index_of(&cs, 0, c);
    s.substring_char(0, k)
}

/// The part of `s` after the last `c`; all of `s` where there is no `c`.
pub open spec fn after_last(s: Seq<char>, c: char) -> Seq<char>
    decreases s.len(),
{
    if s.len() == 0 || s.last() == c {
        Seq::empty()
    } else {
        after_last(s.drop_last(), c).push(s.last())
    }
}

/// [`after_last`] is the longest suffix in which `c` does not occur.
pub proof fn lemma_after_last(s: Seq<char>, c: char, k: int)
    requires
        0 <= k <= s.len(),
        forall|i: int| k <= i < s.len() ==> s[i] != c,
        k == 0 || s[k - 1] == c,
    ensures
        after_last(s, c) == s.skip(k),
    decreases s.len(),
{
    if k < s.len() {
        assert(s.last() != c);
        assert forall|i: int| k <= i < s.len() - 1 implies s.drop_last()[i] != c by {
            assert(s[i] != c);
        }
        lemma_after_last(s.drop_last(), c, k);
        assert(s.drop_last().skip(k).push(s.last()) == s.skip(k));
    } else {
        assert(s.skip(k) == Seq::<char>::empty());
    }
}

/// Computes [`after_last`].
pub fn split_last(s: &str, c: char) -> (r: &str)
    ensures
        r@ == after_last(s@, c),
{
    let cs = to_chars(s);
    let n = cs.len();
    let mut k: usize = n;
    while k > 0 && cs[k - 1] != c
        invariant
            k <= n,
            n == cs@.len(),
            forall|i: int| k <= i < n ==> cs@[i] != c,
        decreases k,
    {
        k = k - 1;
    }
    proof {
        lemma_after_last(s@, c, k as int);
        assert(s@.subrange(k as int, n as int) == s@.skip(k as int));
    }
    s.substring_char(k, n)
}

// ---------- lines and words ----------

/// `s` without one trailing carriage return.
pub open spec fn strip_cr(s: Seq<char>) -> Seq<char> {
    if s.len() > 0 && s.last() == '\r' {
        s.drop_last()
    } else {
        s
    }
}

/// The lines of a text. A line ends with a line feed, with or without a carriage return
/// before it; the last one may end with the text.
pub open spec fn lines(s: Seq<char>) -> Seq<Seq<char>>
    decreases s.len(),
{
    let k = find_char(s, '\n');
    if s.len() == 0 {
        Seq::empty()
    } else if k < 0 || k >= s.len() {
        seq![s]
    } else {
        seq![strip_cr(s.take(k))] + lines(s.skip(k + 1))
    }
}

/// The contents of a list of strings.
pub open spec fn contents(v: Seq<&str>) -> Seq<Seq<char>> {
    v.map_values(|s: &str| s@)
}

/// Splits a text into its [`lines`].
pub fn split_lines<'a>(s: &'a str) -> (r: Vec<&'a str>)
    ensures
        contents(r@) == lines(s@),
{
    let cs = to_chars(s);
    let n = cs.len();
    let mut out: Vec<&'a str> = Vec::new();
    let mut pos: usize = 0;
    assert(s@.skip(0) == s@);
    assert(contents(out@) + lines(s@) == lines(s@));
    while pos < n
        invariant
            pos <= n,
            n == cs@.len(),
            cs@ == s@,
            contents(out@) + lines(s@.skip(pos as int)) == lines(s@),
        decreases n - pos,
    {
        let ghost before = out@;
        let k = index_of(&cs, pos, '\n');
        let ghost rest = s@.skip(pos as int);
        if k == n {
            let line = s.substring_char(pos, n);
            out.push(line);
            proof {
                assert(line@ == rest);
                assert(lines(rest) == seq![rest]);
                assert(contents(out@) == contents(before) + seq![rest]);
                assert(s@.skip(n as int).len() == 0);
                assert(lines(s@.skip(n as int)) == Seq::<Seq<char>>::empty());
            }
            pos = n;
        } else {
            let mut end: usize = k;
            if k > pos && cs[k - 1] == '\r' {
                end = k - 1;
            }
            let line = s.substring_char(pos, end);
            out.push(line);
            proof {
                assert(rest.take(k - pos) == s@.subrange(pos as int, k as int));
                if end < k {
                    assert(s@.subrange(pos as int, k as int).last() == s@[k - 1]);
                    assert(s@.subrange(pos as int, k as int).drop_last() == s@.subrange(
                        pos as int,
                        end as int,
                    ));
                } else if k > pos {
                    assert(s@.subrange(pos as int, k as int).last() == s@[k - 1]);
                }
                assert(line@ == strip_cr(rest.take(k - pos)));
                assert(rest.skip(k - pos + 1) == s@.skip(k + 1));
                assert(lines(rest) == seq![line@] + lines(s@.skip(k + 1)));
                assert(contents(out@) == contents(before) + seq![line@]);
                assert(contents(before) + (seq![line@] + lines(s@.skip(k + 1))) == contents(out@)
                    + lines(s@.skip(k + 1)));
            }
            pos = k + 1;
        }
    }
    proof {
        assert(s@.skip(pos as int).len() == 0);
        assert(contents(out@) + Seq::<Seq<char>>::empty() == contents(out@));
    }
    out
}

/// The first line of a text; empty where there is no line.
pub open spec fn first_line(s: Seq<char>) -> Seq<char> {
    if lines(s).len() > 0 {
        lines(s)[0]
    } else {
        Seq::empty()
    }
}

/// The length of the longest prefix of `s` without white space.
pub open spec fn word_len(s: Seq<char>) -> nat
    decreases s.len(),
{
    if s.len() == 0 || is_space(s[0]) {
        0
    } else {
        1 + word_len(s.skip(1))
    }
}

/// [`word_len`] is no longer than the text, and a text that does not begin with white
/// space has a word of at least one character.
pub proof fn lemma_word_len(s: Seq<char>, k: int)
    requires
        0 <= k <= s.len(),
        forall|i: int| 0 <= i < k ==> !is_space(s[i]),
        k == s.len() || is_space(s[k]),
    ensures
        word_len(s) == k,
    decreases s.len(),
{
    if k > 0 {
        assert forall|i: int| 0 <= i < k - 1 implies !is_space(s.skip(1)[i]) by {
            assert(!is_space(s[i + 1]));
        }
        lemma_word_len(s.skip(1), k - 1);
    }
}

proof fn lemma_trim_start_len(s: Seq<char>)
    ensures
        trim_start(s).len() <= s.len(),
        trim_start(s).len() > 0 ==> !is_space(trim_start(s)[0]),
    decreases s.len(),
{
    if s.len() > 0 && is_space(s[0]) {
        lemma_trim_start_len(s.skip(1));
    }
}

/// The words of a text: its longest parts without white space.
pub open spec fn words(s: Seq<char>) -> Seq<Seq<char>>
    decreases s.len(),
    via words_decreases
{
    let t = trim_start(s);
    if t.len() == 0 {
        Seq::empty()
    } else {
        seq![t.take(word_len(t) as int)] + words(t.skip(word_len(t) as int))
    }
}

#[via_fn]
proof fn words_decreases(s: Seq<char>) {
    lemma_trim_start_len(s);
    let t = trim_start(s);
    if t.len() > 0 {
        assert(word_len(t) >= 1);
        lemma_word_len_bound(t);
    }
}

proof fn lemma_word_len_bound(s: Seq<char>)
    ensures
        word_len(s) <= s.len(),
    decreases s.len(),
{
    if s.len() > 0 && !is_space(s[0]) {
        lemma_word_len_bound(s.skip(1));
    }
}

proof fn lemma_trim_start_skip(s: Seq<char>, k: int)
    requires
        0 <= k <= s.len(),
        forall|i: int| 0 <= i < k ==> is_space(s[i]),
        k == s.len() || !is_space(s[k]),
    ensures
        trim_start(s) == s.skip(k),
    decreases s.len(),
{
    if k > 0 {
        assert forall|i: int| 0 <= i < k - 1 implies is_space(s.skip(1)[i]) by {
            assert(is_space(s[i + 1]));
        }
        lemma_trim_start_skip(s.skip(1), k - 1);
        assert(s.skip(1).skip(k - 1) == s.skip(k));
    } else {
        assert(s.skip(0) == s);
    }
}

/// A text that ends in a word behind white space has it as its last word.
pub proof fn lemma_last_word(a: Seq<char>, b: Seq<char>)
    requires
        a.len() == 0 || is_space(a.last()),
        b.len() > 0,
        forall|i: int| 0 <= i < b.len() ==> !is_space(#[trigger] b[i]),
    ensures
        words(a + b).len() > 0,
        words(a + b).last() == b,
    decreases a.len(),
{
    let s = a + b;
    if a.len() == 0 {
        assert(s == b);
        assert(!is_space(b[0]));
        lemma_word_len(b, b.len() as int);
        assert(b.take(b.len() as int) == b);
        assert(b.skip(b.len() as int) == Seq::<char>::empty());
        assert(words(b.skip(b.len() as int)) == Seq::<Seq<char>>::empty());
        assert(words(s) == seq![b]);
    } else if is_space(a[0]) {
        let rest = a.skip(1);
        assert(s.skip(1) == rest + b);
        assert(s[0] == a[0]);
        assert(rest.len() > 0 ==> rest.last() == a.last());
        lemma_last_word(rest, b);
        assert(trim_start(s) == trim_start(rest + b));
        assert(words(s) == words(rest + b));
    } else {
        let k = lemma_word_end(a);
        assert forall|i: int| 0 <= i < k implies !is_space(s[i]) by {
            assert(s[i] == a[i]);
        }
        assert(s[k] == a[k]);
        lemma_word_len(s, k);
        assert(!is_space(s[0]));
        let rest = a.skip(k);
        assert(s.skip(k) == rest + b);
        assert(rest.last() == a.last());
        lemma_last_word(rest, b);
        assert(words(s) == seq![s.take(k)] + words(rest + b));
        assert(words(s).last() == words(rest + b).last());
    }
}

/// Where the first word of a text ends that begins with a word and ends with white space.
proof fn lemma_word_end(a: Seq<char>) -> (k: int)
    requires
        a.len() > 0,
        !is_space(a[0]),
        is_space(a.last()),
    ensures
        0 < k < a.len(),
        is_space(a[k]),
        forall|i: int| 0 <= i < k ==> !is_space(#[trigger] a[i]),
    decreases a.len(),
{
    if is_space(a[1]) {
        1
    } else {
        let k = lemma_word_end(a.skip(1));
        assert forall|i: int| 0 <= i < k + 1 implies !is_space(#[trigger] a[i]) by {
            if i > 0 {
                assert(a.skip(1)[i - 1] == a[i]);
            }
        }
        k + 1
    }
}

/// Splits a text into its [`words`].
pub fn split_words<'a>(s: &'a str) -> (r: Vec<&'a str>)
    ensures
        contents(r@) == words(s@),
{
    let cs = to_chars(s);
    let n = cs.len();
    let mut out: Vec<&'a str> = Vec::new();
    let mut pos: usize = 0;
    assert(s@.skip(0) == s@);
    assert(contents(out@) + words(s@) == words(s@));
    while pos < n
        invariant
            pos <= n,
            n == cs@.len(),
            cs@ == s@,
            contents(out@) + words(s@.skip(pos as int)) == words(s@),
        decreases n - pos,
    {
        let ghost before = out@;
        let ghost rest = s@.skip(pos as int);
        let mut a: usize = pos;
        while a < n && char_is_space(cs[a])
            invariant
                pos <= a <= n,
                n == cs@.len(),
                forall|i: int| pos <= i < a ==> is_space(cs@[i]),
            decreases n - a,
        {
            a = a + 1;
        }
        proof {
            lemma_trim_start_skip(rest, a - pos);
            assert(rest.skip(a - pos) == s@.skip(a as int));
        }
        let mut b: usize = a;
        while b < n && !char_is_space(cs[b])
            invariant
                a <= b <= n,
                n == cs@.len(),
                forall|i: int| a <= i < b ==> !is_space(cs@[i]),
            decreases n - b,
        {
            b = b + 1;
        }
        let ghost t = s@.skip(a as int);
        if a < n {
            let word = s.substring_char(a, b);
            out.push(word);
            proof {
                lemma_word_len(t, b - a);
                assert(t.take(b - a) == word@);
                assert(t.skip(b - a) == s@.skip(b as int));
                assert(words(rest) == seq![word@] + words(s@.skip(b as int)));
                assert(contents(out@) == contents(before) + seq![word@]);
                assert(contents(before) + (seq![word@] + words(s@.skip(b as int))) == contents(out@)
                    + words(s@.skip(b as int)));
            }
        } else {
            proof {
                assert(s@.skip(b as int).len() == 0);
                assert(words(rest) == Seq::<Seq<char>>::empty());
                assert(trim_start(s@.skip(b as int)).len() == 0);
            }
        }
        pos = b;
    }
    proof {
        assert(s@.skip(pos as int).len() == 0);
        assert(trim_start(s@.skip(pos as int)).len() == 0);
        assert(contents(out@) + Seq::<Seq<char>>::empty() == contents(out@));
    }
    out
}

// ---------- numbers ----------

/// Whether `c` is an ASCII decimal digit.
pub open spec fn is_digit(c: char) -> bool {
    '0' <= c <= '9'
}

/// The digit that stands for a number below ten.
pub open spec fn digit_char(d: nat) -> char {
    (48 + d) as char
}

/// The character of a hexadecimal digit, in lower case.
pub open spec fn hex_digit(d: nat) -> char {
    if d < 10 {
        (48 + d) as char
    } else {
        (87 + d) as char
    }
}

/// The decimal representation of a number, without leading zeros.
pub open spec fn decimal(n: nat) -> Seq<char>
    decreases n,
{
    if n < 10 {
        seq![digit_char(n)]
    } else {
        decimal(n / 10).push(digit_char(n % 10))
    }
}

/// The decimal representation of a signed number.
pub open spec fn signed_decimal(n: int) -> Seq<char> {
    if n < 0 {
        seq!['-'] + decimal((-n) as nat)
    } else {
        decimal(n as nat)
    }
}

/// Appends the decimal representation of `n`.
pub fn push_decimal(out: &mut String, n: u64)
    ensures
        final(out)@ == old(out)@ + decimal(n as nat),
    decreases n,
{
    let ghost start = out@;
    if n >= 10 {
        push_decimal(out, n / 10);
    }
    let c = (48 + (n % 10) as u8) as char;
    out.push(c);
    proof {
        assert(c == digit_char(n as nat % 10));
        if n >= 10 {
            assert(start + decimal(n as nat / 10).push(c) == (start + decimal(n as nat / 10)).push(
                c,
            ));
        }
    }
}

/// Appends the decimal representation of a signed number.
pub fn push_signed_decimal(out: &mut String, n: i32)
    ensures
        final(out)@ == old(out)@ + signed_decimal(n as int),
{
    if n < 0 {
        out.push('-');
        push_decimal(out, (-(n as i64)) as u64);
        assert(old(out)@.push('-') + decimal((-(n as int)) as nat) == old(out)@ + signed_decimal(
            n as int,
        ));
    } else {
        push_decimal(out, n as u64);
    }
}

/// The number below ten that a digit stands for.
pub open spec fn digit_value(c: char) -> nat {
    (c as u32 - 48) as nat
}

/// Whether every character is a decimal digit.
pub open spec fn all_digits(s: Seq<char>) -> bool {
    forall|i: int| 0 <= i < s.len() ==> is_digit(#[trigger] s[i])
}

/// The number that a string of digits denotes; zero for the empty string.
pub open spec fn digits_value(s: Seq<char>) -> nat
    decreases s.len(),
{
    if s.len() == 0 {
        0
    } else {
        digits_value(s.drop_last()) * 10 + digit_value(s.last())
    }
}

/// The digits of an unsigned number: what follows an optional plus sign.
pub open spec fn unsigned_digits(s: Seq<char>) -> Seq<char> {
    if s.len() > 0 && s[0] == '+' {
        s.skip(1)
    } else {
        s
    }
}

/// The 16-bit number that a text denotes: an optional plus sign and at least one digit,
/// with a value that fits.
pub open spec fn port_number(s: Seq<char>) -> Option<u16> {
    let d = unsigned_digits(s);
    if d.len() > 0 && all_digits(d) && digits_value(d) <= 0xffff {
        Some(digits_value(d) as u16)
    } else {
        None
    }
}

/// The value of a longer string of digits is no smaller.
pub proof fn lemma_digits_value_monotonic(s: Seq<char>, k: int)
    requires
        0 <= k <= s.len(),
    ensures
        digits_value(s.take(k)) <= digits_value(s),
    decreases s.len() - k,
{
    if k < s.len() {
        lemma_digits_value_monotonic(s, k + 1);
        assert(s.take(k + 1).drop_last() == s.take(k));
    } else {
        assert(s.take(k) == s);
    }
}

/// Reads a 16-bit number from a text, as [`port_number`] says.
pub fn parse_u16(s: &str) -> (r: Option<u16>)
    ensures
        r == port_number(s@),
{
    let cs = to_chars(s);
    let n = cs.len();
    let mut start: usize = 0;
    if n > 0 && cs[0] == '+' {
        start = 1;
    }
    let ghost d = unsigned_digits(s@);
    assert(d == s@.skip(start as int));
    if start == n {
        return None;
    }
    let mut i: usize = start;
    let mut value: u32 = 0;
    assert(d.take(0) == Seq::<char>::empty());
    while i < n
        invariant
            start <= i <= n,
            n == cs@.len(),
            cs@ == s@,
            d == s@.skip(start as int),
            d == unsigned_digits(s@),
            forall|j: int| 0 <= j < i - start ==> is_digit(#[trigger] d[j]),
            value == digits_value(d.take(i - start)),
            value <= 0xffff,
        decreases n - i,
    {
        let c = cs[i];
        assert(d[i - start] == c);
        if !('0' <= c && c <= '9') {
            return None;
        }
        value = value * 10 + (c as u32 - 48);
        proof {
            assert(d.take(i - start + 1).drop_last() == d.take(i - start));
            lemma_digits_value_monotonic(d, i - start + 1);
        }
        if value > 0xffff {
            return None;
        }
        i = i + 1;
    }
    assert(d.take(n - start) == d);
    Some(value as u16)
}

/// Reading a number back from its decimal representation gives the number.
pub proof fn decimal_reads_back(n: nat)
    ensures
        all_digits(decimal(n)),
        decimal(n).len() > 0,
        digits_value(decimal(n)) == n,
        n <= 0xffff ==> port_number(decimal(n)) == Some(n as u16),
    decreases n,
{
    let d = decimal(n);
    if n < 10 {
        assert(d.drop_last() == Seq::<char>::empty());
        assert(digits_value(d.drop_last()) == 0);
    } else {
        decimal_reads_back(n / 10);
        assert(d.drop_last() == decimal(n / 10));
        assert forall|i: int| 0 <= i < d.len() implies is_digit(#[trigger] d[i]) by {
            if i < d.len() - 1 {
                assert(d[i] == decimal(n / 10)[i]);
            }
        }
    }
    assert(is_digit(d[0]));
}

// ---------- searching ----------

/// Whether `needle` stands in `hay` at index `i`.
pub open spec fn occurs_at<T>(hay: Seq<T>, needle: Seq<T>, i: int) -> bool {
    &&& 0 <= i
    &&& i + needle.len() <= hay.len()
    &&& hay.subrange(i, i + needle.len()) == needle
}

/// Whether `i` is the first place at which `needle` stands in `hay`.
pub open spec fn first_at<T>(hay: Seq<T>, needle: Seq<T>, i: int) -> bool {
    &&& occurs_at(hay, needle, i)
    &&& forall|j: int| 0 <= j < i ==> !#[trigger] occurs_at(hay, needle, j)
}

/// Whether `needle` stands anywhere in `hay`.
pub open spec fn occurs<T>(hay: Seq<T>, needle: Seq<T>) -> bool {
    exists|i: int| occurs_at(hay, needle, i)
}

/// Finds the first blank line, that is the first carriage return, line feed, carriage
/// return, line feed.
pub fn find_blank_line(s: &str) -> (r: Option<usize>)
    ensures
        r matches Some(i) ==> first_at(s@, seq!['\r', '\n', '\r', '\n'], i as int),
        r is None ==> !occurs(s@, seq!['\r', '\n', '\r', '\n']),
{
    let cs = to_chars(s);
    let ghost needle = seq!['\r', '\n', '\r', '\n'];
    let n = cs.len();
    let mut i: usize = 0;
    while i < n && n - i >= 4
        invariant
            i <= n,
            n == cs@.len(),
            cs@ == s@,
            needle == seq!['\r', '\n', '\r', '\n'],
            forall|j: int| 0 <= j < i ==> !#[trigger] occurs_at(s@, needle, j),
        decreases n - i,
    {
        if cs[i] == '\r' && cs[i + 1] == '\n' && cs[i + 2] == '\r' && cs[i + 3] == '\n' {
            assert(s@.subrange(i as int, i + 4) == needle);
            return Some(i);
        }
        proof {
            if occurs_at(s@, needle, i as int) {
                let w = s@.subrange(i as int, i + 4);
                assert(w[0] == cs@[i as int] && w[1] == cs@[i + 1] && w[2] == cs@[i + 2] && w[3]
                    == cs@[i + 3]);
                assert(needle[0] == '\r' && needle[1] == '\n' && needle[2] == '\r' && needle[3]
                    == '\n');
            }
        }
        i = i + 1;
    }
    proof {
        if occurs(s@, needle) {
            let j = choose|j: int| occurs_at(s@, needle, j);
            assert(j + 4 <= n);
            assert(j < i);
        }
    }
    None
}

/// Whether two byte strings are the same.
pub fn bytes_equal(a: &[u8], b: &[u8]) -> (r: bool)
    ensures
        r == (a@ == b@),
{
    if a.len() != b.len() {
        return false;
    }
    let mut i: usize = 0;
    while i < a.len()
        invariant
            a@.len() == b@.len(),
            i <= a@.len(),
            forall|j: int| 0 <= j < i ==> a@[j] == b@[j],
        decreases a@.len() - i,
    {
        if a[i] != b[i] {
            return false;
        }
        i = i + 1;
    }
    assert(a@ == b@);
    true
}

// ---------- what follows ----------

/// Two texts are the same up to case if each character of one is that of the other, or one
/// of the two is an ASCII capital letter and the other its small letter.
pub proof fn only_ascii_case_is_ignored(a: Seq<char>, b: Seq<char>)
    ensures
        eq_ignore_case(a, b) <==> {
            &&& a.len() == b.len()
            &&& forall|i: int|
                0 <= i < a.len() ==> {
                    ||| #[trigger] a[i] == b[i]
                    ||| 'A' <= a[i] <= 'Z' && b[i] as u32 == a[i] as u32 + 32
                    ||| 'A' <= b[i] <= 'Z' && a[i] as u32 == b[i] as u32 + 32
                }
        },
{
    assert forall|x: char, y: char| #[trigger] ascii_lower(x) == #[trigger] ascii_lower(y) <==> {
        ||| x == y
        ||| 'A' <= x <= 'Z' && y as u32 == x as u32 + 32
        ||| 'A' <= y <= 'Z' && x as u32 == y as u32 + 32
    } by {}
    if eq_ignore_case(a, b) {
        assert forall|i: int| 0 <= i < a.len() implies {
            ||| #[trigger] a[i] == b[i]
            ||| 'A' <= a[i] <= 'Z' && b[i] as u32 == a[i] as u32 + 32
            ||| 'A' <= b[i] <= 'Z' && a[i] as u32 == b[i] as u32 + 32
        } by {
            assert(ascii_lower(a[i]) == ascii_lower(b[i]));
        }
    } else if a.len() == b.len() {
        let i = choose|i: int|
            0 <= i < a.len() && ascii_lower(#[trigger] a[i]) != ascii_lower(b[i]);
        assert(!(a[i] == b[i] || ('A' <= a[i] <= 'Z' && b[i] as u32 == a[i] as u32 + 32) || ('A'
            <= b[i] <= 'Z' && a[i] as u32 == b[i] as u32 + 32)));
    }
}

/// Of the ASCII characters, the space and the controls from tab to carriage return are white
/// space.
pub proof fn ascii_white_space(c: char)
    requires
        c as u32 <= 127,
    ensures
        is_space(c) <==> c == ' ' || 9 <= c as u32 <= 13,
{
}

/// White space is cut off at both ends, and nothing else is.
pub proof fn only_white_space_is_cut(a: Seq<char>, m: Seq<char>, b: Seq<char>)
    requires
        forall|i: int| 0 <= i < a.len() ==> is_space(#[trigger] a[i]),
        forall|i: int| 0 <= i < b.len() ==> is_space(#[trigger] b[i]),
        m.len() > 0 ==> !is_space(m[0]) && !is_space(m.last()),
    ensures
        trimmed(a + m + b) == m,
    decreases a.len() + b.len(),
{
    let s = a + m + b;
    if m.len() == 0 {
        assert forall|i: int| 0 <= i < s.len() implies is_space(s[i]) by {
            if i < a.len() {
                assert(s[i] == a[i]);
            } else {
                assert(s[i] == b[i - a.len()]);
            }
        }
        lemma_trim_start_skip(s, s.len() as int);
        assert(s.skip(s.len() as int) == Seq::<char>::empty());
    } else {
        assert forall|i: int| 0 <= i < a.len() implies is_space(s[i]) by {
            assert(s[i] == a[i]);
        }
        assert(s[a.len() as int] == m[0]);
        lemma_trim_start_skip(s, a.len() as int);
        assert(s.skip(a.len() as int) == m + b);
        lemma_trim_end_of(m, b);
    }
}

proof fn lemma_trim_end_of(m: Seq<char>, b: Seq<char>)
    requires
        forall|i: int| 0 <= i < b.len() ==> is_space(#[trigger] b[i]),
        m.len() > 0,
        !is_space(m.last()),
    ensures
        trim_end(m + b) == m,
    decreases b.len(),
{
    let s = m + b;
    if b.len() == 0 {
        assert(s == m);
    } else {
        assert(s.last() == b[b.len() - 1]);
        assert(s.drop_last() == m + b.drop_last());
        lemma_trim_end_of(m, b.drop_last());
    }
}

/// The part before the first and the part behind the last mark are found, whatever stands on
/// the other side; without a mark they are the whole text.
pub proof fn parts_are_found(part: Seq<char>, mark: char, other: Seq<char>)
    requires
        !part.contains(mark),
    ensures
        before_first(part + seq![mark] + other, mark) == part,
        after_last(other + seq![mark] + part, mark) == part,
        before_first(part, mark) == part,
        after_last(part, mark) == part,
{
    assert forall|i: int| 0 <= i < part.len() implies #[trigger] part[i] != mark by {
        assert(part.contains(part[i]));
    }
    let n = part.len() as int;
    let s = part + seq![mark] + other;
    assert forall|i: int| 0 <= i < n implies s[i] != mark by {
        assert(s[i] == part[i]);
    }
    assert(s[n] == mark);
    lemma_find_char(s, mark, n);
    assert(s.take(n) == part);
    lemma_find_char(part, mark, n);
    assert(part.take(n) == part);
    let t = other + seq![mark] + part;
    let k = other.len() + 1;
    assert forall|i: int| k <= i < t.len() implies t[i] != mark by {
        assert(t[i] == part[i - k]);
    }
    assert(t[k - 1] == mark);
    lemma_after_last(t, mark, k as int);
    assert(t.skip(k as int) == part);
    lemma_after_last(part, mark, 0);
    assert(part.skip(0) == part);
}

/// A text is split at its line feeds. A carriage return before a line feed is no part of the
/// line, and a last line without a line feed counts.
pub proof fn text_is_split_into_lines(line: Seq<char>, rest: Seq<char>)
    requires
        !line.contains('\n'),
    ensures
        lines(line + seq!['\n'] + rest) == (if line.len() > 0 && line.last() == '\r' {
            seq![line.drop_last()] + lines(rest)
        } else {
            seq![line] + lines(rest)
        }),
        line.len() > 0 ==> lines(line) == seq![line],
        lines(Seq::empty()) == Seq::<Seq<char>>::empty(),
        line.len() > 0 ==> first_line(line) == line,
        line.len() > 0 && line.last() == '\r' ==> first_line(line + seq!['\n'] + rest)
            == line.drop_last(),
{
    let n = line.len() as int;
    assert forall|i: int| 0 <= i < n implies #[trigger] line[i] != '\n' by {
        assert(line.contains(line[i]));
    }
    let s = line + seq!['\n'] + rest;
    assert forall|i: int| 0 <= i < n implies s[i] != '\n' by {
        assert(s[i] == line[i]);
    }
    assert(s[n] == '\n');
    lemma_find_char(s, '\n', n);
    assert(s.take(n) == line);
    assert(s.skip(n + 1) == rest);
    lemma_find_char(line, '\n', n);
}

/// A text is split at its white space.
pub proof fn text_is_split_into_words(space: Seq<char>, word: Seq<char>, rest: Seq<char>)
    requires
        forall|i: int| 0 <= i < space.len() ==> is_space(#[trigger] space[i]),
        forall|i: int| 0 <= i < word.len() ==> !is_space(#[trigger] word[i]),
        word.len() > 0,
        rest.len() == 0 || is_space(rest[0]),
    ensures
        words(space + word + rest) == seq![word] + words(rest),
        words(space) == Seq::<Seq<char>>::empty(),
{
    let s = space + word + rest;
    let n = space.len() as int;
    let w = word.len() as int;
    assert forall|i: int| 0 <= i < n implies is_space(s[i]) by {
        assert(s[i] == space[i]);
    }
    assert(s[n] == word[0]);
    lemma_trim_start_skip(s, n);
    let t = s.skip(n);
    assert(t == word + rest);
    assert forall|i: int| 0 <= i < w implies !is_space(t[i]) by {
        assert(t[i] == word[i]);
    }
    assert(w < t.len() ==> t[w] == rest[0]);
    lemma_word_len(t, w);
    assert(t.take(w) == word);
    assert(t.skip(w) == rest);
    lemma_trim_start_skip(space, n);
    assert(space.skip(n) == Seq::<char>::empty());
}

/// A number below zero is written with a minus sign before its digits.
pub proof fn negative_numbers_have_a_sign(n: nat)
    requires
        n > 0,
    ensures
        signed_decimal(-(n as int)) == seq!['-'] + decimal(n),
        signed_decimal(n as int) == decimal(n),
        signed_decimal(0) == decimal(0),
{
}

/// Each digit counts ten times as much as the one behind it.
pub proof fn digits_count_by_tens(s: Seq<char>, c: char)
    requires
        '0' <= c <= '9',
    ensures
        digits_value(s.push(c)) == 10 * digits_value(s) + (c as u32 - '0' as u32),
        digits_value(Seq::empty()) == 0,
        is_digit(c),
{
    assert(s.push(c).drop_last() == s);
}

/// A port is written with decimal digits, with or without a plus sign, and fits 16 bits.
pub proof fn ports_are_read(digits: Seq<char>)
    requires
        digits.len() > 0,
        forall|i: int| 0 <= i < digits.len() ==> '0' <= #[trigger] digits[i] <= '9',
    ensures
        port_number(digits) == (if digits_value(digits) <= 65535 {
            Some(digits_value(digits) as u16)
        } else {
            None
        }),
        port_number(seq!['+'] + digits) == port_number(digits),
{
    assert('0' <= digits[0] <= '9');
    assert((seq!['+'] + digits).skip(1) == digits);
}

/// What holds anything but decimal digits behind an optional plus sign is no port.
pub proof fn other_texts_are_no_ports(s: Seq<char>, i: int)
    requires
        s.len() == 0 || (0 <= i < s.len() && !('0' <= s[i] <= '9') && (i > 0 || s[0] != '+')),
    ensures
        port_number(s) is None,
{
    if s.len() > 0 && s[0] == '+' {
        assert(s.skip(1)[i - 1] == s[i]);
    }
}

/// The second word of the first line is found, whatever follows it and whatever lines follow.
pub proof fn second_word_of_first_line(
    first: Seq<char>,
    second: Seq<char>,
    tail: Seq<char>,
    more: Seq<char>,
)
    requires
        first.len() > 0,
        forall|i: int| 0 <= i < first.len() ==> !is_space(#[trigger] first[i]),
        second.len() > 0,
        forall|i: int| 0 <= i < second.len() ==> !is_space(#[trigger] second[i]),
        tail.len() == 0 || is_space(tail[0]),
        !tail.contains('\n'),
    ensures
        ({
            let line = first + seq![' '] + second + tail;
            let found = words(first_line(line + seq!['\n'] + more));
            found.len() >= 2 && found[1] == second
        }),
{
    let line = first + seq![' '] + second + tail;
    assert(!line.contains('\n')) by {
        if line.contains('\n') {
            let i = choose|i: int| 0 <= i < line.len() && line[i] == '\n';
            let v = first.len() as int;
            let n = second.len() as int;
            if i < v {
                assert(!is_space(first[i]));
            } else if i > v && i < v + 1 + n {
                assert(!is_space(second[i - v - 1]));
            } else if i > v {
                assert(tail[i - v - 1 - n] == '\n');
            }
        }
    }
    text_is_split_into_lines(line, more);
    let whole = first_line(line + seq!['\n'] + more);
    let end = if line.last() == '\r' {
        assert(tail.len() > 0) by {
            if tail.len() == 0 {
                assert(line.last() == second[second.len() - 1]);
            }
        }
        tail.drop_last()
    } else {
        tail
    };
    assert(whole == first + seq![' '] + second + end);
    let rest = seq![' '] + second + end;
    assert(whole == Seq::<char>::empty() + first + rest);
    text_is_split_into_words(Seq::empty(), first, rest);
    text_is_split_into_words(seq![' '], second, end);
}

/// A number is written without leading zeros.
pub proof fn numbers_have_no_leading_zeros(n: nat)
    ensures
        n < 10 ==> decimal(n).len() == 1 && decimal(n)[0] as u32 == '0' as u32 + n,
        n > 0 ==> decimal(n)[0] != '0',
    decreases n,
{
    if n >= 10 {
        numbers_have_no_leading_zeros(n / 10);
    }
}

/// An optional text has the characters of the text, where there is one.
pub proof fn optional_texts_have_their_characters(s: String, t: &str, other: Seq<char>)
    ensures
        opt_text(Some(s)) == Some(s@),
        opt_text(None) == None::<Seq<char>>,
        opt_str(Some(t)) == Some(t@),
        opt_str(None) == None::<Seq<char>>,
        text_or(Some(s), other) == s@,
        text_or(None, other) == other,
{
}

/// A text stands in what is put around it, and the first place where it stands is the only
/// first one.
pub proof fn texts_are_found_first(a: Seq<char>, needle: Seq<char>, b: Seq<char>, i: int, j: int)
    ensures
        occurs_at(a + needle + b, needle, a.len() as int),
        occurs(a + needle + b, needle),
        first_at(a + needle + b, needle, i) ==> i <= a.len(),
        first_at(a, needle, i) && first_at(a, needle, j) ==> i == j,
        occurs_at(a, needle, i) <==> 0 <= i && exists|front: Seq<char>, back: Seq<char>|
            front.len() == i && a == #[trigger] (front + needle + back),
{
    let whole = a + needle + b;
    assert(whole.subrange(a.len() as int, a.len() as int + needle.len()) == needle);
    assert(occurs_at(whole, needle, a.len() as int));
    if occurs_at(a, needle, i) {
        let front = a.take(i);
        let back = a.skip(i + needle.len());
        assert(a == front + needle + back) by {
            assert forall|k: int| 0 <= k < a.len() implies a[k] == (front + needle + back)[k] by {
                if i <= k < i + needle.len() {
                    assert(a.subrange(i, i + needle.len())[k - i] == a[k]);
                }
            }
        }
        assert(front.len() == i && a == front + needle + back);
    }
    if 0 <= i && exists|front: Seq<char>, back: Seq<char>|
        front.len() == i && a == #[trigger] (front + needle + back) {
        let (front, back) = choose|front: Seq<char>, back: Seq<char>|
            front.len() == i && a == #[trigger] (front + needle + back);
        assert(a.subrange(i, i + needle.len()) == needle);
    }
}

/// Outside of ASCII the white space of Unicode counts, and nothing else.
pub proof fn other_white_space(c: char)
    requires
        c as u32 > 127,
    ensures
        is_space(c) <==> c == '\u{85}' || c == '\u{a0}' || c == '\u{1680}' || '\u{2000}' <= c
            <= '\u{200a}' || c == '\u{2028}' || c == '\u{2029}' || c == '\u{202f}' || c == '\u{205f}'
            || c == '\u{3000}',
{
}

/// A text begins with what has the same letters as its front, in whatever case.
pub proof fn fronts_are_found_in_any_case(front: Seq<char>, rest: Seq<char>, p: Seq<char>)
    requires
        front.len() == p.len(),
    ensures
        begins_ignoring_case(front + rest, p) <==> eq_ignore_case(front, p),
        front.len() > 0 ==> !begins_ignoring_case(front.drop_last(), p),
{
    assert((front + rest).take(p.len() as int) == front);
}

} // verus!
