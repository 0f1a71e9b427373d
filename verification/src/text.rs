//! Text as sequences of characters.
//!
//! Every parser of the library works on `&[char]` and states its result over
//! `Seq<char>`. This module holds what they share: white space, trimming,
//! splitting, ASCII case, integers and their decimal form.

use vstd::prelude::*;
use vstd::slice::slice_subrange;

verus! {

/// `String::push` of std appends the character at the end of the string.
pub assume_specification[ String::push ](s: &mut String, c: char)
    ensures
        final(s)@ == old(s)@.push(c),
;

/// A name for std's `Debug` form of a string: the text between double quotes,
/// with quotes, backslashes and unprintable characters escaped.
pub uninterp spec fn debug_form(s: Seq<char>) -> Seq<char>;

/// The `Debug` implementation of `str` in std, through `format!`.
/// Claimed: the text that comes out depends on the characters of `s` alone.
#[verifier::external_body]
pub(crate) fn debug_text(s: &str) -> (r: String)
    ensures
        r@ == debug_form(s@),
{
    format!("{s:?}")
}

/// A name for std's `Debug` form of a character: the character between single
/// quotes, escaped where it is a quote, a backslash or unprintable.
pub uninterp spec fn debug_char_form(c: char) -> Seq<char>;

/// The `Debug` implementation of `char` in std, through `format!`.
/// Claimed: the text that comes out depends on the character alone.
#[verifier::external_body]
pub(crate) fn debug_char(c: char) -> (r: String)
    ensures
        r@ == debug_char_form(c),
{
    format!("{c:?}")
}

/// `str::from_utf8` of std: the text that the bytes encode, where they are
/// valid UTF-8.
#[verifier::external_body]
pub(crate) fn decode(bytes: &[u8]) -> (r: Option<String>)
    ensures
        match r {
            Some(s) => vstd::utf8::valid_utf8(bytes@) && s@ == vstd::utf8::decode_utf8(bytes@),
            None => !vstd::utf8::valid_utf8(bytes@),
        },
{
    std::str::from_utf8(bytes).ok().map(|s| s.to_owned())
}

// ---------------------------------------------------------------------
// Conversions
// ---------------------------------------------------------------------

/// The characters of a string.
pub fn chars_of(s: &str) -> (r: Vec<char>)
    ensures
        r@ == s@,
{
    let mut out: Vec<char> = Vec::new();
    for c in it: s.chars()
        invariant
            out@ == s@.take(it.index() as int),
            it.seq() == s@,
    {
        proof {
            assert(s@.take(it.index() + 1) =~= s@.take(it.index() as int).push(c));
        }
        out.push(c);
    }
    proof {
        assert(s@.take(s@.len() as int) =~= s@);
    }
    out
}

/// The string with these characters.
pub fn string_of(s: &[char]) -> (r: String)
    ensures
        r@ == s@,
{
    let mut out: String = String::new();
    let mut i: usize = 0;
    while i < s.len()
        invariant
            i <= s.len(),
            out@ == s@.take(i as int),
        decreases s.len() - i,
    {
        proof {
            assert(s@.take(i + 1) =~= s@.take(i as int).push(s@[i as int]));
        }
        out.push(s[i]);
        i = i + 1;
    }
    proof {
        assert(s@.take(s@.len() as int) =~= s@);
    }
    out
}

/// Whether two slices hold the same characters.
pub fn same_chars(a: &[char], b: &[char]) -> (r: bool)
    ensures
        r == (a@ == b@),
{
    if a.len() != b.len() {
        return false;
    }
    let mut i: usize = 0;
    while i < a.len()
        invariant
            a.len() == b.len(),
            i <= a.len(),
            forall|j: int| 0 <= j < i ==> a@[j] == b@[j],
        decreases a.len() - i,
    {
        if a[i] != b[i] {
            return false;
        }
        i = i + 1;
    }
    proof {
        assert(a@ =~= b@);
    }
    true
}

/// Whether two strings hold the same characters.
pub fn same(a: &str, b: &str) -> (r: bool)
    ensures
        r == (a@ == b@),
{
    let x = chars_of(a);
    let y = chars_of(b);
    same_chars(x.as_slice(), y.as_slice())
}

/// Whether the characters are those of the string.
pub fn is_str(a: &[char], b: &str) -> (r: bool)
    ensures
        r == (a@ == b@),
{
    let y = chars_of(b);
    same_chars(a, y.as_slice())
}

/// The characters of a list of strings.
pub open spec fn texts(v: Seq<String>) -> Seq<Seq<char>> {
    v.map_values(|s: String| s@)
}

/// An optional string as optional characters.
pub open spec fn opt_text(o: Option<String>) -> Option<Seq<char>> {
    match o {
        Some(s) => Some(s@),
        None => None,
    }
}

/// The code point of a character.
pub fn char_code(c: char) -> (r: u32)
    ensures
        r == c as int,
        r == c as u32,
{
    c as u32
}

// ---------------------------------------------------------------------
// White space and trimming
// ---------------------------------------------------------------------

/// The characters with the Unicode `White_Space` property.
pub open spec fn is_space(c: char) -> bool {
    ||| 0x09 <= c as u32 <= 0x0D
    ||| c as u32 == 0x20
    ||| c as u32 == 0x85
    ||| c as u32 == 0xA0
    ||| c as u32 == 0x1680
    ||| 0x2000 <= c as u32 <= 0x200A
    ||| c as u32 == 0x2028
    ||| c as u32 == 0x2029
    ||| c as u32 == 0x202F
    ||| c as u32 == 0x205F
    ||| c as u32 == 0x3000
}

/// Whether the character is white space.
pub fn char_is_space(c: char) -> (r: bool)
    ensures
        r == is_space(c),
{
    let n: u32 = c as u32;
    (0x09 <= n && n <= 0x0D) || n == 0x20 || n == 0x85 || n == 0xA0 || n == 0x1680
        || (0x2000 <= n && n <= 0x200A) || n == 0x2028 || n == 0x2029 || n == 0x202F
        || n == 0x205F || n == 0x3000
}

/// The text without its leading white space.
pub open spec fn trimmed_start(s: Seq<char>) -> Seq<char>
    decreases s.len(),
{
    if s.len() > 0 && is_space(s[0]) {
        trimmed_start(s.skip(1))
    } else {
        s
    }
}

/// The text without its trailing white space.
pub open spec fn trimmed_end(s: Seq<char>) -> Seq<char>
    decreases s.len(),
{
    if s.len() > 0 && is_space(s.last()) {
        trimmed_end(s.drop_last())
    } else {
        s
    }
}

/// The text without the white space at both ends.
pub open spec fn trimmed(s: Seq<char>) -> Seq<char> {
    trimmed_end(trimmed_start(s))
}

/// Drops leading white space.
pub fn trim_start(s: &[char]) -> (r: &[char])
    ensures
        r@ == trimmed_start(s@),
        r@.len() <= s@.len(),
{
    let mut i: usize = 0;
    proof {
        assert(s@.skip(0) =~= s@);
    }
    while i < s.len() && char_is_space(s[i])
        invariant
            i <= s.len(),
            trimmed_start(s@.skip(i as int)) == trimmed_start(s@),
        decreases s.len() - i,
    {
        proof {
            assert(s@.skip(i as int).skip(1) =~= s@.skip(i + 1));
        }
        i = i + 1;
    }
    proof {
        assert(s@.skip(i as int) =~= s@.subrange(i as int, s@.len() as int));
    }
    slice_subrange(s, i, s.len())
}

/// Drops trailing white space.
pub fn trim_end(s: &[char]) -> (r: &[char])
    ensures
        r@ == trimmed_end(s@),
        r@.len() <= s@.len(),
{
    let mut n: usize = s.len();
    proof {
        assert(s@.take(s@.len() as int) =~= s@);
    }
    while n > 0 && char_is_space(s[n - 1])
        invariant
            n <= s.len(),
            trimmed_end(s@.take(n as int)) == trimmed_end(s@),
        decreases n,
    {
        proof {
            assert(s@.take(n as int).drop_last() =~= s@.take(n - 1));
        }
        n = n - 1;
    }
    proof {
        assert(s@.take(n as int) =~= s@.subrange(0, n as int));
    }
    slice_subrange(s, 0, n)
}

/// Drops the white space at both ends.
pub fn trim(s: &[char]) -> (r: &[char])
    ensures
        r@ == trimmed(s@),
        r@.len() <= s@.len(),
{
    trim_end(trim_start(s))
}

/// A trimmed text neither begins nor ends with white space.
pub proof fn lemma_trimmed_ends(s: Seq<char>)
    ensures
        trimmed_start(s).len() > 0 ==> !is_space(trimmed_start(s)[0]),
        trimmed_end(s).len() > 0 ==> !is_space(trimmed_end(s).last()),
        trimmed_start(s).len() <= s.len(),
        trimmed_end(s).len() <= s.len(),
        trimmed_end(s) =~= s.take(trimmed_end(s).len() as int),
        trimmed_start(s) =~= s.skip(s.len() - trimmed_start(s).len()),
    decreases s.len(),
{
    if s.len() > 0 && is_space(s[0]) {
        lemma_trimmed_ends(s.skip(1));
    }
    if s.len() > 0 && is_space(s.last()) {
        lemma_trimmed_ends(s.drop_last());
    }
}

/// Trimming a text that has no white space at either end keeps it.
pub proof fn lemma_trimmed_same(s: Seq<char>)
    requires
        s.len() > 0 ==> !is_space(s[0]) && !is_space(s.last()),
    ensures
        trimmed(s) == s,
        trimmed_start(s) == s,
        trimmed_end(s) == s,
{
}

/// A line without the carriage return that may end it.
pub open spec fn without_return(line: Seq<char>) -> Seq<char> {
    if line.len() > 0 && line.last() == '\r' {
        line.drop_last()
    } else {
        line
    }
}

/// The lines of a text: each ends in a line feed, which a carriage return may
/// precede; the last one need not.
pub open spec fn lines_of(s: Seq<char>) -> Seq<Seq<char>>
    decreases s.len(),
{
    if s.len() == 0 {
        seq![]
    } else {
        let i = first_index(s, '\n');
        if 0 <= i && i < s.len() {
            seq![without_return(s.take(i))] + lines_of(s.skip(i + 1))
        } else {
            seq![s]
        }
    }
}

/// The lines of a text.
pub fn lines<'a>(s: &'a [char]) -> (r: Vec<&'a [char]>)
    ensures
        slices(r@) == lines_of(s@),
{
    let mut out: Vec<&'a [char]> = Vec::new();
    let mut at: usize = 0;
    proof {
        assert(s@.skip(0) =~= s@);
        assert(slices(out@) + lines_of(s@) =~= lines_of(s@));
    }
    while at < s.len()
        invariant
            at <= s.len(),
            slices(out@) + lines_of(s@.skip(at as int)) == lines_of(s@),
        decreases s.len() - at,
    {
        let rest = slice_subrange(s, at, s.len());
        let ghost before = out@;
        proof {
            assert(rest@ =~= s@.skip(at as int));
        }
        let n = find(rest, '\n');
        if n < rest.len() {
            let end: usize = if n > 0 && rest[n - 1] == '\r' { n - 1 } else { n };
            let line = slice_subrange(rest, 0, end);
            out.push(line);
            proof {
                assert(rest@.take(n as int).drop_last() =~= rest@.subrange(0, n - 1) || n == 0);
                assert(line@ =~= without_return(rest@.take(n as int)));
                assert(slices(out@) =~= slices(before).push(line@));
                assert(rest@.skip(n + 1) =~= s@.skip(at + n + 1));
                assert(slices(before) + (seq![line@] + lines_of(s@.skip(at + n + 1)))
                    =~= slices(out@) + lines_of(s@.skip(at + n + 1)));
            }
            at = at + n + 1;
        } else {
            out.push(rest);
            proof {
                assert(slices(out@) =~= slices(before).push(rest@));
                assert(s@.skip(s@.len() as int) =~= seq![]);
                assert(slices(out@) + lines_of(s@.skip(s@.len() as int)) =~= slices(before)
                    + seq![rest@]);
            }
            at = s.len();
        }
    }
    proof {
        assert(s@.skip(at as int) =~= seq![]);
        assert(slices(out@) + lines_of(s@.skip(at as int)) =~= slices(out@));
    }
    out
}

// ---------------------------------------------------------------------
// Searching and splitting
// ---------------------------------------------------------------------

/// The index of the first `c`, or the length where there is none.
pub open spec fn first_index(s: Seq<char>, c: char) -> int
    decreases s.len(),
{
    if s.len() == 0 || s[0] == c {
        0
    } else {
        1 + first_index(s.skip(1), c)
    }
}

pub proof fn lemma_first_index(s: Seq<char>, c: char)
    ensures
        0 <= first_index(s, c) <= s.len(),
        first_index(s, c) < s.len() ==> s[first_index(s, c)] == c,
        forall|j: int| 0 <= j < first_index(s, c) ==> s[j] != c,
        s.contains(c) <==> first_index(s, c) < s.len(),
    decreases s.len(),
{
    if s.len() > 0 && s[0] != c {
        let t = s.skip(1);
        lemma_first_index(t, c);
        assert forall|j: int| 0 <= j < first_index(s, c) implies s[j] != c by {
            if j > 0 {
                assert(t[j - 1] == s[j]);
            }
        }
        if first_index(s, c) < s.len() {
            assert(t[first_index(t, c)] == s[first_index(s, c)]);
        }
        if s.contains(c) {
            let j = choose|j: int| 0 <= j < s.len() && s[j] == c;
            assert(t[j - 1] == c);
        }
    } else if s.len() > 0 {
        assert(s[0] == c);
    }
}

/// An index that holds the first `c` is the first index.
pub proof fn lemma_first_index_is(s: Seq<char>, c: char, i: int)
    requires
        0 <= i <= s.len(),
        i < s.len() ==> s[i] == c,
        forall|j: int| 0 <= j < i ==> s[j] != c,
    ensures
        first_index(s, c) == i,
{
    lemma_first_index(s, c);
    let k = first_index(s, c);
    if k < i {
        assert(s[k] != c);
    } else if i < k {
        assert(s[i] != c);
    }
}

/// Finds the first `c`.
pub fn find(s: &[char], c: char) -> (r: usize)
    ensures
        r == first_index(s@, c),
        r <= s@.len(),
{
    let mut i: usize = 0;
    while i < s.len() && s[i] != c
        invariant
            i <= s.len(),
            forall|j: int| 0 <= j < i ==> s@[j] != c,
        decreases s.len() - i,
    {
        i = i + 1;
    }
    proof {
        lemma_first_index_is(s@, c, i as int);
    }
    i
}

/// Whether `c` occurs.
pub fn contains(s: &[char], c: char) -> (r: bool)
    ensures
        r == s@.contains(c),
{
    proof {
        lemma_first_index(s@, c);
    }
    find(s, c) < s.len()
}

/// The parts before and after the first `c`, where there is one.
pub open spec fn split_at_first(s: Seq<char>, c: char) -> Option<(Seq<char>, Seq<char>)> {
    let i = first_index(s, c);
    if i < s.len() {
        Some((s.take(i), s.skip(i + 1)))
    } else {
        None
    }
}

/// The view of an optional pair of slices.
pub open spec fn pair_view(o: Option<(&[char], &[char])>) -> Option<(Seq<char>, Seq<char>)> {
    match o {
        Some(p) => Some((p.0@, p.1@)),
        None => None,
    }
}

/// Splits at the first `c`.
pub fn split_once(s: &[char], c: char) -> (r: Option<(&[char], &[char])>)
    ensures
        pair_view(r) == split_at_first(s@, c),
{
    let i = find(s, c);
    if i < s.len() {
        proof {
            assert(s@.take(i as int) =~= s@.subrange(0, i as int));
            assert(s@.skip(i + 1) =~= s@.subrange(i + 1, s@.len() as int));
        }
        Some((slice_subrange(s, 0, i), slice_subrange(s, i + 1, s.len())))
    } else {
        None
    }
}

/// The index of the first `c` that another follows, or the length where there
/// is none.
pub open spec fn first_pair(s: Seq<char>, c: char) -> int
    decreases s.len(),
{
    if s.len() < 2 {
        s.len() as int
    } else if s[0] == c && s[1] == c {
        0
    } else {
        1 + first_pair(s.skip(1), c)
    }
}

/// The parts before and after the first double `c`, where there is one.
pub open spec fn split_at_pair(s: Seq<char>, c: char) -> Option<(Seq<char>, Seq<char>)> {
    let i = first_pair(s, c);
    if i < s.len() {
        Some((s.take(i), s.skip(i + 2)))
    } else {
        None
    }
}

/// Splits at the first double `c`.
pub fn split_pair(s: &[char], c: char) -> (r: Option<(&[char], &[char])>)
    ensures
        pair_view(r) == split_at_pair(s@, c),
{
    let mut i: usize = 0;
    proof {
        assert(s@.skip(0) =~= s@);
    }
    while i < s.len() && s.len() - i >= 2
        invariant
            i <= s.len(),
            first_pair(s@, c) == i + first_pair(s@.skip(i as int), c),
        decreases s.len() - i,
    {
        if s[i] == c && s[i + 1] == c {
            proof {
                assert(s@.take(i as int) =~= s@.subrange(0, i as int));
                assert(s@.skip(i + 2) =~= s@.subrange(i + 2, s@.len() as int));
            }
            return Some((slice_subrange(s, 0, i), slice_subrange(s, i + 2, s.len())));
        }
        proof {
            assert(s@.skip(i as int).skip(1) =~= s@.skip(i + 1));
        }
        i = i + 1;
    }
    None
}

/// The parts between the occurrences of `c`.
pub open spec fn split_parts(s: Seq<char>, c: char) -> Seq<Seq<char>>
    decreases s.len(),
{
    let i = first_index(s, c);
    if 0 <= i < s.len() {
        seq![s.take(i)] + split_parts(s.skip(i + 1), c)
    } else {
        seq![s]
    }
}

/// The views of a list of slices.
pub open spec fn slices(v: Seq<&[char]>) -> Seq<Seq<char>> {
    v.map_values(|s: &[char]| s@)
}

/// Splits at every `c`.
pub fn split<'a>(s: &'a [char], c: char) -> (r: Vec<&'a [char]>)
    ensures
        slices(r@) == split_parts(s@, c),
        r@.len() >= 1,
{
    let mut out: Vec<&'a [char]> = Vec::new();
    let mut rest: &'a [char] = s;
    proof {
        assert(slices(out@) + split_parts(s@, c) =~= split_parts(s@, c));
    }
    loop
        invariant
            split_parts(s@, c) == slices(out@) + split_parts(rest@, c),
        decreases rest@.len(),
    {
        let ghost before = out@;
        match split_once(rest, c) {
            Some((head, tail)) => {
                proof {
                    lemma_first_index(rest@, c);
                }
                out.push(head);
                proof {
                    assert(slices(out@) =~= slices(before).push(head@));
                    assert(slices(out@) + split_parts(tail@, c) =~= slices(before) + (seq![head@]
                        + split_parts(tail@, c)));
                }
                rest = tail;
            },
            None => {
                proof {
                    lemma_first_index(rest@, c);
                }
                out.push(rest);
                proof {
                    assert(slices(out@) =~= slices(before) + seq![rest@]);
                }
                return out;
            },
        }
    }
}

/// What separates the items of a list: white space, and commas where asked.
pub open spec fn is_separator(c: char, comma: bool) -> bool {
    is_space(c) || (comma && c == ',')
}

/// The length of the longest prefix without separators.
pub open spec fn item_len(s: Seq<char>, comma: bool) -> int
    decreases s.len(),
{
    if s.len() == 0 || is_separator(s[0], comma) {
        0
    } else {
        1 + item_len(s.skip(1), comma)
    }
}

pub proof fn lemma_item_len(s: Seq<char>, comma: bool)
    ensures
        0 <= item_len(s, comma) <= s.len(),
        s.len() > 0 && !is_separator(s[0], comma) ==> item_len(s, comma) > 0,
    decreases s.len(),
{
    if s.len() > 0 && !is_separator(s[0], comma) {
        lemma_item_len(s.skip(1), comma);
    }
}

/// The non-empty items between separators, in order.
pub open spec fn items(s: Seq<char>, comma: bool) -> Seq<Seq<char>>
    decreases s.len(),
{
    if s.len() == 0 {
        seq![]
    } else if is_separator(s[0], comma) {
        items(s.skip(1), comma)
    } else {
        let n = item_len(s, comma);
        if 0 < n <= s.len() {
            seq![s.take(n)] + items(s.skip(n), comma)
        } else {
            seq![]
        }
    }
}

/// Splits into the non-empty items between separators.
pub fn split_items<'a>(s: &'a [char], comma: bool) -> (r: Vec<&'a [char]>)
    ensures
        slices(r@) == items(s@, comma),
{
    let mut out: Vec<&'a [char]> = Vec::new();
    let mut i: usize = 0;
    proof {
        assert(s@.skip(0) =~= s@);
        assert(slices(out@) + items(s@, comma) =~= items(s@, comma));
    }
    while i < s.len()
        invariant
            i <= s.len(),
            items(s@, comma) == slices(out@) + items(s@.skip(i as int), comma),
        decreases s.len() - i,
    {
        if char_is_space(s[i]) || (comma && s[i] == ',') {
            proof {
                assert(s@.skip(i as int).skip(1) =~= s@.skip(i + 1));
            }
            i = i + 1;
        } else {
            let mut j: usize = i;
            while j < s.len() && !(char_is_space(s[j]) || (comma && s[j] == ','))
                invariant
                    i <= j <= s.len(),
                    item_len(s@.skip(i as int), comma) == (j - i) + item_len(
                        s@.skip(j as int),
                        comma,
                    ),
                decreases s.len() - j,
            {
                proof {
                    assert(s@.skip(j as int).skip(1) =~= s@.skip(j + 1));
                }
                j = j + 1;
            }
            let ghost before = out@;
            proof {
                lemma_item_len(s@.skip(i as int), comma);
            }
            let part = slice_subrange(s, i, j);
            out.push(part);
            proof {
                assert(part@ =~= s@.skip(i as int).take(j - i));
                assert(s@.skip(i as int).skip(j - i) =~= s@.skip(j as int));
                assert(slices(out@) =~= slices(before).push(part@));
                assert(slices(out@) + items(s@.skip(j as int), comma) =~= slices(before) + (
                seq![part@] + items(s@.skip(j as int), comma)));
            }
            i = j;
        }
    }
    proof {
        assert(slices(out@) + items(s@.skip(i as int), comma) =~= slices(out@));
    }
    out
}

// ---------------------------------------------------------------------
// Prefixes and suffixes
// ---------------------------------------------------------------------

/// Whether the text begins with `p`.
pub open spec fn begins_with(s: Seq<char>, p: Seq<char>) -> bool {
    p.len() <= s.len() && s.take(p.len() as int) == p
}

/// Whether the text ends with `p`.
pub open spec fn finishes_with(s: Seq<char>, p: Seq<char>) -> bool {
    p.len() <= s.len() && s.skip(s.len() - p.len()) == p
}

/// The view of an optional slice.
pub open spec fn opt_slice(o: Option<&[char]>) -> Option<Seq<char>> {
    match o {
        Some(p) => Some(p@),
        None => None,
    }
}

/// What follows the prefix, where the text begins with it.
pub open spec fn without_prefix(s: Seq<char>, p: Seq<char>) -> Option<Seq<char>> {
    if begins_with(s, p) {
        Some(s.skip(p.len() as int))
    } else {
        None
    }
}

/// What precedes the suffix, where the text ends with it.
pub open spec fn without_suffix(s: Seq<char>, p: Seq<char>) -> Option<Seq<char>> {
    if finishes_with(s, p) {
        Some(s.take(s.len() - p.len()))
    } else {
        None
    }
}

/// Strips a prefix.
pub fn strip_prefix<'a>(s: &'a [char], p: &str) -> (r: Option<&'a [char]>)
    ensures
        opt_slice(r) == without_prefix(s@, p@),
{
    let q = chars_of(p);
    if q.len() <= s.len() {
        proof {
            assert(s@.take(q@.len() as int) =~= s@.subrange(0, q@.len() as int));
            assert(s@.skip(q@.len() as int) =~= s@.subrange(q@.len() as int, s@.len() as int));
        }
        if same_chars(slice_subrange(s, 0, q.len()), q.as_slice()) {
            return Some(slice_subrange(s, q.len(), s.len()));
        }
    }
    None
}

/// Strips a suffix.
pub fn strip_suffix<'a>(s: &'a [char], p: &str) -> (r: Option<&'a [char]>)
    ensures
        opt_slice(r) == without_suffix(s@, p@),
{
    let q = chars_of(p);
    if q.len() <= s.len() {
        let n: usize = s.len() - q.len();
        proof {
            assert(s@.take(n as int) =~= s@.subrange(0, n as int));
            assert(s@.skip(n as int) =~= s@.subrange(n as int, s@.len() as int));
        }
        if same_chars(slice_subrange(s, n, s.len()), q.as_slice()) {
            return Some(slice_subrange(s, 0, n));
        }
    }
    None
}

/// Whether the text begins with the string.
pub fn starts_with(s: &[char], p: &str) -> (r: bool)
    ensures
        r == begins_with(s@, p@),
{
    strip_prefix(s, p).is_some()
}

/// Whether the text ends with the string.
pub fn ends_with(s: &[char], p: &str) -> (r: bool)
    ensures
        r == finishes_with(s@, p@),
{
    strip_suffix(s, p).is_some()
}

// ---------------------------------------------------------------------
// ASCII case
// ---------------------------------------------------------------------

/// The lower-case form of an ASCII letter; any other character as it is.
pub open spec fn lower_char(c: char) -> char {
    if 'A' as u32 <= c as u32 <= 'Z' as u32 {
        (c as u32 + 32) as char
    } else {
        c
    }
}

/// The text with its ASCII letters in lower case.
pub open spec fn lowered(s: Seq<char>) -> Seq<char> {
    s.map_values(|c: char| lower_char(c))
}

pub fn to_lower_char(c: char) -> (r: char)
    ensures
        r == lower_char(c),
{
    let n: u32 = c as u32;
    if 65 <= n && n <= 90 {
        let b: u8 = (n + 32) as u8;
        b as char
    } else {
        c
    }
}

/// Puts ASCII letters in lower case.
pub fn to_lower(s: &[char]) -> (r: Vec<char>)
    ensures
        r@ == lowered(s@),
{
    let mut out: Vec<char> = Vec::new();
    let mut i: usize = 0;
    while i < s.len()
        invariant
            i <= s.len(),
            out@ == lowered(s@).take(i as int),
        decreases s.len() - i,
    {
        proof {
            assert(lowered(s@).take(i + 1) =~= lowered(s@).take(i as int).push(
                lower_char(s@[i as int]),
            ));
        }
        out.push(to_lower_char(s[i]));
        i = i + 1;
    }
    proof {
        assert(lowered(s@).take(s@.len() as int) =~= lowered(s@));
    }
    out
}

pub open spec fn is_digit(c: char) -> bool {
    '0' as u32 <= c as u32 <= '9' as u32
}

pub open spec fn is_letter(c: char) -> bool {
    ('a' as u32 <= c as u32 <= 'z' as u32) || ('A' as u32 <= c as u32 <= 'Z' as u32)
}

pub fn char_is_digit(c: char) -> (r: bool)
    ensures
        r == is_digit(c),
{
    let n: u32 = c as u32;
    48 <= n && n <= 57
}

pub fn char_is_letter(c: char) -> (r: bool)
    ensures
        r == is_letter(c),
{
    let n: u32 = c as u32;
    (97 <= n && n <= 122) || (65 <= n && n <= 90)
}

// ---------------------------------------------------------------------
// Joining
// ---------------------------------------------------------------------

/// Texts one after the other, with a separator between them.
pub open spec fn joined_by(ss: Seq<Seq<char>>, sep: Seq<char>) -> Seq<char>
    decreases ss.len(),
{
    if ss.len() == 0 {
        seq![]
    } else if ss.len() == 1 {
        ss[0]
    } else {
        joined_by(ss.drop_last(), sep) + sep + ss.last()
    }
}

/// Joins texts with a separator between them.
pub fn join_by(ss: &Vec<String>, sep: &str) -> (r: String)
    ensures
        r@ == joined_by(texts(ss@), sep@),
{
    let ghost all = texts(ss@);
    if ss.len() == 0 {
        let r = String::new();
        proof {
            assert(r@ =~= seq![]);
        }
        return r;
    }
    let mut out = ss[0].clone();
    let mut i: usize = 1;
    proof {
        assert(all.take(1)[0] == all[0]);
    }
    while i < ss.len()
        invariant
            1 <= i <= ss.len(),
            all == texts(ss@),
            out@ == joined_by(all.take(i as int), sep@),
        decreases ss.len() - i,
    {
        proof {
            assert(all.take(i + 1).drop_last() =~= all.take(i as int));
            assert(all.take(i + 1).last() == ss@[i as int]@);
        }
        out.append(sep);
        out.append(ss[i].as_str());
        i = i + 1;
    }
    proof {
        assert(all.take(all.len() as int) =~= all);
    }
    out
}

} // verus!
