//! Character classification and conversions between `String` and `Vec<char>`.

use vstd::prelude::*;

verus! {

/// Whether `c` has the Unicode `White_Space` property, as `char::is_whitespace`
/// decides: tab, line feed, vertical tab, form feed, carriage return, space,
/// next line, no-break space, ogham space mark, the spaces U+2000 to U+200A,
/// line and paragraph separator, narrow no-break space, medium mathematical
/// space and ideographic space.
pub open spec fn char_is_whitespace(c: char) -> bool {
    let u = c as u32;
    ||| 0x09 <= u <= 0x0d
    ||| u == 0x20
    ||| u == 0x85
    ||| u == 0xa0
    ||| u == 0x1680
    ||| 0x2000 <= u <= 0x200a
    ||| u == 0x2028
    ||| u == 0x2029
    ||| u == 0x202f
    ||| u == 0x205f
    ||| u == 0x3000
}

/// Whether `c` is whitespace (see [`char_is_whitespace`]).
pub fn is_whitespace(c: char) -> (r: bool)
    ensures
        r == char_is_whitespace(c),
{
    let u: u32 = c as u32;
    (0x09 <= u && u <= 0x0d) || u == 0x20 || u == 0x85 || u == 0xa0 || u == 0x1680 || (0x2000
        <= u && u <= 0x200a) || u == 0x2028 || u == 0x2029 || u == 0x202f || u == 0x205f || u
        == 0x3000
}

/// `c` is an ASCII digit.
pub open spec fn ascii_digit(c: char) -> bool {
    48 <= (c as u32) <= 57
}

/// `c` is an ASCII letter.
pub open spec fn ascii_letter(c: char) -> bool {
    65 <= (c as u32) <= 90 || 97 <= (c as u32) <= 122
}

/// The result of `char::is_numeric` on `c`: whether `c` belongs to one of
/// Unicode's number categories.
pub uninterp spec fn unicode_numeric(c: char) -> bool;

/// Whether `c` is numeric: of the ASCII characters exactly the digits, of the
/// others those that `char::is_numeric` accepts.
pub open spec fn char_is_numeric(c: char) -> bool {
    if (c as u32) < 128 {
        ascii_digit(c)
    } else {
        unicode_numeric(c)
    }
}

/// Calls `char::is_numeric`; the result is the named Unicode property of
/// `c`, which on ASCII holds of exactly the digits.
#[verifier::external_body]
pub(crate) fn is_numeric(c: char) -> (r: bool)
    ensures
        r == unicode_numeric(c),
        (c as u32) < 128 ==> (r <==> ascii_digit(c)),
{
    c.is_numeric()
}

/// The result of `char::is_alphanumeric` on `c`: whether `c` is alphabetic
/// or numeric in Unicode's sense.
pub uninterp spec fn unicode_alphanumeric(c: char) -> bool;

/// Whether `c` is alphanumeric: of the ASCII characters exactly the letters
/// and digits, of the others those that `char::is_alphanumeric` accepts.
pub open spec fn char_is_alphanumeric(c: char) -> bool {
    if (c as u32) < 128 {
        ascii_digit(c) || ascii_letter(c)
    } else {
        unicode_alphanumeric(c)
    }
}

/// Calls `char::is_alphanumeric`; the result is the named Unicode property
/// of `c`, which on ASCII holds of exactly the letters and digits.
#[verifier::external_body]
pub(crate) fn is_alphanumeric(c: char) -> (r: bool)
    ensures
        r == unicode_alphanumeric(c),
        (c as u32) < 128 ==> (r <==> (ascii_digit(c) || ascii_letter(c))),
{
    c.is_alphanumeric()
}

/// Collects `v` into a `String` through std's `FromIterator<char>`, which keeps
/// the characters and their order.
#[verifier::external_body]
pub(crate) fn chars_to_string(v: &Vec<char>) -> (s: String)
    ensures
        s@ == v@,
{
    v.iter().collect()
}

/// The characters of `s`, in order.
pub fn string_chars(s: &str) -> (v: Vec<char>)
    ensures
        v@ == s@,
{
    let mut v: Vec<char> = Vec::new();
    for c in it: s.chars()
        invariant
            v@ == it.seq().take(it.index() as int),
    {
        v.push(c);
    }
    v
}

} // verus!

verus! {

// ---------------------------------------------------------------------------
// Line and word splitting
// ---------------------------------------------------------------------------

/// The pieces of `s` between occurrences of `sep`, as `str::split` with a
/// one-character pattern returns them: always at least one piece, empty
/// pieces kept.
pub open spec fn split_spec(s: Seq<char>, sep: char) -> Seq<Seq<char>>
    decreases s.len(),
{
    if s.len() == 0 {
        seq![Seq::<char>::empty()]
    } else {
        let prev = split_spec(s.drop_last(), sep);
        if s.last() == sep {
            prev.push(Seq::<char>::empty())
        } else {
            prev.update(prev.len() - 1, prev.last().push(s.last()))
        }
    }
}

/// Every split has at least one piece.
pub proof fn lemma_split_nonempty(s: Seq<char>, sep: char)
    ensures
        split_spec(s, sep).len() >= 1,
    decreases s.len(),
{
    if s.len() > 0 {
        lemma_split_nonempty(s.drop_last(), sep);
    }
}

/// Splits `s` at every `sep`.
pub fn split_chars(s: &Vec<char>, sep: char) -> (pieces: Vec<Vec<char>>)
    ensures
        pieces@.map_values(|p: Vec<char>| p@) == split_spec(s@, sep),
{
    let mut done: Vec<Vec<char>> = Vec::new();
    let mut cur: Vec<char> = Vec::new();
    let n = s.len();
    for i in 0..n
        invariant
            n == s@.len(),
            done@.map_values(|p: Vec<char>| p@).push(cur@) == split_spec(s@.take(i as int), sep),
    {
        let c = s[i];
        proof {
            assert(s@.take(i + 1).drop_last() == s@.take(i as int));
            assert(s@.take(i + 1).last() == c);
        }
        if c == sep {
            let finished = cur;
            cur = Vec::new();
            let ghost before = done@;
            done.push(finished);
            assert(done@.map_values(|p: Vec<char>| p@) == before.map_values(|p: Vec<char>| p@).push(finished@));
        } else {
            cur.push(c);
        }
    }
    assert(s@.take(n as int) == s@);
    let ghost before = done@;
    done.push(cur);
    assert(done@.map_values(|p: Vec<char>| p@) == before.map_values(|p: Vec<char>| p@).push(cur@));
    done
}

} // verus!

verus! {

// ---------------------------------------------------------------------------
// Comments, trailing whitespace, whitespace removal
// ---------------------------------------------------------------------------

/// Index of the first `;;` in `s` at or after `i`, or `s.len()` when there is none.
pub open spec fn comment_start_from(s: Seq<char>, i: int) -> int
    decreases s.len() - i,
{
    if i < 0 || i + 1 >= s.len() {
        s.len() as int
    } else if s[i] == ';' && s[i + 1] == ';' {
        i
    } else {
        comment_start_from(s, i + 1)
    }
}

/// `s` up to its first `;;` (all of `s` when there is none).
pub open spec fn strip_comment_spec(s: Seq<char>) -> Seq<char> {
    s.take(comment_start_from(s, 0))
}

/// The part of `s` before its first `;;`.
pub fn strip_comment(s: &Vec<char>) -> (r: Vec<char>)
    ensures
        r@ == strip_comment_spec(s@),
{
    let n = s.len();
    let mut i: usize = 0;
    while n > 0 && i < n - 1 && !(s[i] == ';' && s[i + 1] == ';')
        invariant
            n == s@.len(),
            i <= n,
            comment_start_from(s@, 0) == comment_start_from(s@, i as int),
        decreases n - i,
    {
        i = i + 1;
    }
    let end: usize = if n > 0 && i < n - 1 { i } else { n };
    let mut r: Vec<char> = Vec::new();
    for j in 0..end
        invariant
            end <= n,
            n == s@.len(),
            r@ == s@.take(j as int),
    {
        r.push(s[j]);
        assert(s@.take(j + 1) == s@.take(j as int).push(s@[j as int]));
    }
    r
}

/// `s` without its trailing whitespace, as `str::trim_end` gives it.
pub open spec fn trim_end_spec(s: Seq<char>) -> Seq<char>
    decreases s.len(),
{
    if s.len() > 0 && char_is_whitespace(s.last()) {
        trim_end_spec(s.drop_last())
    } else {
        s
    }
}

/// Removes the trailing whitespace of `s`.
pub fn trim_end(s: &Vec<char>) -> (r: Vec<char>)
    ensures
        r@ == trim_end_spec(s@),
{
    let mut j: usize = s.len();
    assert(s@.take(j as int) == s@);
    while j > 0 && is_whitespace(s[j - 1])
        invariant
            j <= s@.len(),
            trim_end_spec(s@) == trim_end_spec(s@.take(j as int)),
        decreases j,
    {
        assert(s@.take(j as int).drop_last() == s@.take(j - 1));
        j = j - 1;
    }
    let mut r: Vec<char> = Vec::new();
    for k in 0..j
        invariant
            j <= s@.len(),
            r@ == s@.take(k as int),
    {
        r.push(s[k]);
        assert(s@.take(k + 1) == s@.take(k as int).push(s@[k as int]));
    }
    r
}

/// `s` with every whitespace character removed, as `String::retain` with
/// `!c.is_whitespace()` leaves it.
pub open spec fn strip_ws_spec(s: Seq<char>) -> Seq<char>
    decreases s.len(),
{
    if s.len() == 0 {
        s
    } else if char_is_whitespace(s.last()) {
        strip_ws_spec(s.drop_last())
    } else {
        strip_ws_spec(s.drop_last()).push(s.last())
    }
}

/// Removes every whitespace character of `s`.
pub fn strip_whitespace(s: &Vec<char>) -> (r: Vec<char>)
    ensures
        r@ == strip_ws_spec(s@),
{
    let mut r: Vec<char> = Vec::new();
    let n = s.len();
    for k in 0..n
        invariant
            n == s@.len(),
            r@ == strip_ws_spec(s@.take(k as int)),
    {
        assert(s@.take(k + 1).drop_last() == s@.take(k as int));
        let c = s[k];
        if !is_whitespace(c) {
            r.push(c);
        }
    }
    assert(s@.take(n as int) == s@);
    r
}

/// Every character of `s` is numeric.
pub open spec fn all_numeric(s: Seq<char>) -> bool {
    forall|i: int| 0 <= i < s.len() ==> char_is_numeric(#[trigger] s[i])
}

/// Every character of `s` is alphanumeric.
pub open spec fn all_alphanumeric(s: Seq<char>) -> bool {
    forall|i: int| 0 <= i < s.len() ==> char_is_alphanumeric(#[trigger] s[i])
}

/// Whether every character of `s` is numeric.
pub fn is_all_numeric(s: &Vec<char>) -> (r: bool)
    ensures
        r == all_numeric(s@),
{
    let n = s.len();
    for k in 0..n
        invariant
            n == s@.len(),
            forall|i: int| 0 <= i < k ==> char_is_numeric(#[trigger] s@[i]),
    {
        if !is_numeric(s[k]) {
            return false;
        }
    }
    true
}

/// Whether every character of `s` is alphanumeric.
pub fn is_all_alphanumeric(s: &Vec<char>) -> (r: bool)
    ensures
        r == all_alphanumeric(s@),
{
    let n = s.len();
    for k in 0..n
        invariant
            n == s@.len(),
            forall|i: int| 0 <= i < k ==> char_is_alphanumeric(#[trigger] s@[i]),
    {
        if !is_alphanumeric(s[k]) {
            return false;
        }
    }
    true
}

} // verus!
