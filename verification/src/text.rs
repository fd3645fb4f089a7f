//! Character-level text utilities shared by the library.
use vstd::prelude::*;

verus! {

/// The Unicode `White_Space` property, the set that `char::is_whitespace` tests.
pub open spec fn is_white_space(c: char) -> bool {
    let u = c as u32;
    ||| 0x9 <= u <= 0xD
    ||| u == 0x20
    ||| u == 0x85
    ||| u == 0xA0
    ||| u == 0x1680
    ||| 0x2000 <= u <= 0x200A
    ||| u == 0x2028
    ||| u == 0x2029
    ||| u == 0x202F
    ||| u == 0x205F
    ||| u == 0x3000
}

/// Whether `c` has the Unicode `White_Space` property.
pub fn is_white_space_char(c: char) -> (r: bool)
    ensures
        r == is_white_space(c),
{
    let u = c as u32;
    (0x9 <= u && u <= 0xD) || u == 0x20 || u == 0x85 || u == 0xA0 || u == 0x1680 || (0x2000
        <= u && u <= 0x200A) || u == 0x2028 || u == 0x2029 || u == 0x202F || u == 0x205F || u
        == 0x3000
}

/// `String::push` appends one character; the contract states just that, as
/// its documentation does.
pub assume_specification[ String::push ](s: &mut String, ch: char)
    ensures
        final(s)@ == old(s)@.push(ch),
;

/// The characters of `s`, in order.
pub fn chars_of(s: &str) -> (v: Vec<char>)
    ensures
        v@ == s@,
{
    let mut v: Vec<char> = Vec::new();
    for c in it: s.chars()
        invariant
            v@ == it.seq().take(it.index() as int),
            it.seq() == s@,
    {
        v.push(c);
    }
    v
}

/// A string holding exactly the characters of `v`.
pub fn string_of(v: &Vec<char>) -> (s: String)
    ensures
        s@ == v@,
{
    let mut s = String::new();
    for i in 0..v.len()
        invariant
            s@ == v@.take(i as int),
    {
        s.push(v[i]);
        assert(v@.take(i + 1) == v@.take(i as int).push(v@[i as int]));
    }
    assert(v@.take(v.len() as int) == v@);
    s
}

} // verus!

verus! {

/// `needle` occurs in `hay` starting at index `i`.
pub open spec fn occurs_at(hay: Seq<char>, needle: Seq<char>, i: int) -> bool {
    0 <= i && i + needle.len() <= hay.len() && hay.subrange(i, i + needle.len()) == needle
}

/// `needle` occurs somewhere in `hay` (as `str::contains` with a string pattern).
pub open spec fn contains_text(hay: Seq<char>, needle: Seq<char>) -> bool {
    exists|i: int| #[trigger] occurs_at(hay, needle, i)
}

/// `hay` begins with `needle` (as `str::starts_with`).
pub open spec fn starts_with_text(hay: Seq<char>, needle: Seq<char>) -> bool {
    needle.is_prefix_of(hay)
}

/// `hay` ends with `needle` (as `str::ends_with`).
pub open spec fn ends_with_text(hay: Seq<char>, needle: Seq<char>) -> bool {
    needle.is_suffix_of(hay)
}

fn matches_at(hay: &Vec<char>, needle: &Vec<char>, i: usize) -> (r: bool)
    requires
        i + needle.len() <= hay.len(),
    ensures
        r == (hay@.subrange(i as int, i + needle.len()) == needle@),
{
    let mut j: usize = 0;
    while j < needle.len()
        invariant
            j <= needle.len(),
            i + needle.len() <= hay.len(),
            forall|k: int| 0 <= k < j ==> hay@[i + k] == needle@[k],
        decreases needle.len() - j,
    {
        if hay[i + j] != needle[j] {
            assert(hay@.subrange(i as int, i + needle.len())[j as int] != needle@[j as int]);
            return false;
        }
        j += 1;
    }
    assert(hay@.subrange(i as int, i + needle.len()) =~= needle@);
    true
}

/// Whether `needle` occurs in `hay`.
pub fn contains_chars(hay: &Vec<char>, needle: &Vec<char>) -> (r: bool)
    ensures
        r == contains_text(hay@, needle@),
{
    if needle.len() > hay.len() {
        assert forall|i: int| !occurs_at(hay@, needle@, i) by {}
        return false;
    }
    let last = hay.len() - needle.len();
    let mut i: usize = 0;
    while i <= last
        invariant
            last == hay.len() - needle.len(),
            needle.len() <= hay.len(),
            i <= last + 1,
            forall|k: int| 0 <= k < i ==> !#[trigger] occurs_at(hay@, needle@, k),
        decreases last + 1 - i,
    {
        if matches_at(hay, needle, i) {
            assert(occurs_at(hay@, needle@, i as int));
            return true;
        }
        if i == last {
            assert forall|k: int| !#[trigger] occurs_at(hay@, needle@, k) by {
                if 0 <= k && k <= i {
                }
            }
            return false;
        }
        i += 1;
    }
    assert forall|k: int| !#[trigger] occurs_at(hay@, needle@, k) by {
        if 0 <= k && k < i {
        }
    }
    false
}

/// Whether the text `needle` occurs in `hay`.
pub fn contains_str(hay: &Vec<char>, needle: &str) -> (r: bool)
    ensures
        r == contains_text(hay@, needle@),
{
    let n = chars_of(needle);
    contains_chars(hay, &n)
}

/// Whether `hay` begins with the text `needle`.
pub fn starts_with_str(hay: &Vec<char>, needle: &str) -> (r: bool)
    ensures
        r == starts_with_text(hay@, needle@),
{
    let n = chars_of(needle);
    if n.len() > hay.len() {
        return false;
    }
    let r = matches_at(hay, &n, 0);
    assert(r == (hay@.subrange(0, n@.len() as int) == n@));
    r
}

/// Whether `hay` ends with the text `needle`.
pub fn ends_with_str(hay: &Vec<char>, needle: &str) -> (r: bool)
    ensures
        r == ends_with_text(hay@, needle@),
{
    let n = chars_of(needle);
    if n.len() > hay.len() {
        return false;
    }
    let start = hay.len() - n.len();
    let r = matches_at(hay, &n, start);
    assert(hay@.subrange(start as int, start + n@.len()) =~= hay@.subrange(
        hay@.len() - n@.len(),
        hay@.len() as int,
    ));
    r
}

} // verus!

verus! {

/// The result of `str::to_lowercase` on a string with the characters `s`
/// (Unicode lowercase mapping, which may change the length).
pub uninterp spec fn lowercase(s: Seq<char>) -> Seq<char>;

/// The result of `str::to_uppercase` on a string with the characters `s`
/// (Unicode uppercase mapping, which may change the length).
pub uninterp spec fn uppercase(s: Seq<char>) -> Seq<char>;

/// Calls `str::to_lowercase`; the contract only names its result, since the
/// Unicode case tables it follows are not restated here.
#[verifier::external_body]
pub(crate) fn to_lowercase(s: &str) -> (r: String)
    ensures
        r@ == lowercase(s@),
{
    s.to_lowercase()
}

/// Calls `str::to_uppercase`; the contract only names its result, since the
/// Unicode case tables it follows are not restated here.
#[verifier::external_body]
pub(crate) fn to_uppercase(s: &str) -> (r: String)
    ensures
        r@ == uppercase(s@),
{
    s.to_uppercase()
}

/// The characters of `to_lowercase(s)`.
pub fn lowercase_chars(s: &str) -> (r: Vec<char>)
    ensures
        r@ == lowercase(s@),
{
    let l = to_lowercase(s);
    chars_of(l.as_str())
}

pub open spec fn is_ascii_digit(c: char) -> bool {
    '0' <= c <= '9'
}

pub open spec fn is_ascii_alphanumeric(c: char) -> bool {
    ||| '0' <= c <= '9'
    ||| 'a' <= c <= 'z'
    ||| 'A' <= c <= 'Z'
}

/// A class of characters that text is split on.
pub enum Separator {
    /// Unicode white space (`char::is_whitespace`).
    WhiteSpace,
    /// Anything that is not an ASCII letter or digit.
    NotAsciiAlphanumeric,
    /// Anything that is not an ASCII digit.
    NotAsciiDigit,
    /// A Windows path separator, `\\` or `/`.
    PathSeparator,
    /// The only separator of a verbatim Windows path, `\\`.
    Backslash,
    /// The statement terminator `;`.
    Semicolon,
}

pub open spec fn separates(sep: Separator, c: char) -> bool {
    match sep {
        Separator::WhiteSpace => is_white_space(c),
        Separator::NotAsciiAlphanumeric => !is_ascii_alphanumeric(c),
        Separator::NotAsciiDigit => !is_ascii_digit(c),
        Separator::PathSeparator => c == '\\' || c == '/',
        Separator::Backslash => c == '\\',
        Separator::Semicolon => c == ';',
    }
}

pub fn separates_char(sep: &Separator, c: char) -> (r: bool)
    ensures
        r == separates(*sep, c),
{
    match sep {
        Separator::WhiteSpace => is_white_space_char(c),
        Separator::NotAsciiAlphanumeric => !(('0' <= c && c <= '9') || ('a' <= c && c <= 'z') || (
        'A' <= c && c <= 'Z')),
        Separator::NotAsciiDigit => !('0' <= c && c <= '9'),
        Separator::PathSeparator => c == '\\' || c == '/',
        Separator::Backslash => c == '\\',
        Separator::Semicolon => c == ';',
    }
}

/// The pieces of `s` between the characters that `sep` matches, as `str::split`
/// with a character predicate yields them: `k` separators give `k + 1` pieces,
/// some of which may be empty.
pub open spec fn split_by(s: Seq<char>, sep: Separator) -> Seq<Seq<char>>
    decreases s.len(),
{
    if s.len() == 0 {
        seq![Seq::empty()]
    } else {
        let prev = split_by(s.drop_last(), sep);
        if separates(sep, s.last()) {
            prev.push(Seq::empty())
        } else {
            prev.update(prev.len() - 1, prev.last().push(s.last()))
        }
    }
}

pub open spec fn views(v: Seq<Vec<char>>) -> Seq<Seq<char>> {
    v.map_values(|t: Vec<char>| t@)
}

/// Splits `s` as `str::split` does with the predicate `sep`.
pub fn split_chars(s: &Vec<char>, sep: &Separator) -> (r: Vec<Vec<char>>)
    ensures
        views(r@) == split_by(s@, *sep),
{
    let mut pieces: Vec<Vec<char>> = Vec::new();
    let mut cur: Vec<char> = Vec::new();
    for i in 0..s.len()
        invariant
            views(pieces@).push(cur@) == split_by(s@.take(i as int), *sep),
    {
        let c = s[i];
        assert(s@.take(i + 1).drop_last() == s@.take(i as int));
        assert(s@.take(i + 1).last() == c);
        let ghost before = views(pieces@).push(cur@);
        if separates_char(sep, c) {
            let done = cur;
            pieces.push(done);
            cur = Vec::new();
            assert(views(pieces@).push(cur@) =~= before.push(Seq::empty()));
        } else {
            cur.push(c);
            assert(views(pieces@).push(cur@) =~= before.update(
                before.len() - 1,
                before.last().push(c),
            ));
        }
    }
    assert(s@.take(s.len() as int) == s@);
    pieces.push(cur);
    assert(views(pieces@) =~= split_by(s@, *sep));
    pieces
}

/// Number of bytes that UTF-8 uses for `c`.
pub open spec fn char_utf8_len(c: char) -> nat {
    let u = c as u32;
    if u < 0x80 {
        1
    } else if u < 0x800 {
        2
    } else if u < 0x10000 {
        3
    } else {
        4
    }
}

/// Length in bytes of the UTF-8 encoding of `s` (what `str::len` reports).
pub open spec fn utf8_len(s: Seq<char>) -> nat
    decreases s.len(),
{
    if s.len() == 0 {
        0
    } else {
        utf8_len(s.drop_last()) + char_utf8_len(s.last())
    }
}

/// Whether the UTF-8 encoding of `s` takes at least `n` bytes.
pub fn utf8_len_at_least(s: &Vec<char>, n: usize) -> (r: bool)
    ensures
        r == (utf8_len(s@) >= n),
{
    if n == 0 {
        return true;
    }
    let mut total: usize = 0;
    for i in 0..s.len()
        invariant
            total == utf8_len(s@.take(i as int)),
            total < n,
            n <= usize::MAX,
    {
        assert(s@.take(i + 1).drop_last() == s@.take(i as int));
        let u = s[i] as u32;
        let w: usize = if u < 0x80 {
            1
        } else if u < 0x800 {
            2
        } else if u < 0x10000 {
            3
        } else {
            4
        };
        if w >= n - total {
            proof {
                lemma_utf8_len_prefix_monotone(s@, i + 1);
            }
            return true;
        }
        total = total + w;
    }
    assert(s@.take(s.len() as int) == s@);
    false
}

proof fn lemma_utf8_len_prefix_monotone(s: Seq<char>, k: int)
    requires
        0 <= k <= s.len(),
    ensures
        utf8_len(s.take(k)) <= utf8_len(s),
    decreases s.len() - k,
{
    if k < s.len() {
        lemma_utf8_len_prefix_monotone(s, k + 1);
        assert(s.take(k + 1).drop_last() == s.take(k));
    } else {
        assert(s.take(k) == s);
    }
}

} // verus!

verus! {

/// `s` without its leading white space.
pub open spec fn trim_front(s: Seq<char>) -> Seq<char>
    decreases s.len(),
{
    if s.len() > 0 && is_white_space(s[0]) {
        trim_front(s.drop_first())
    } else {
        s
    }
}

/// `s` without its trailing white space.
pub open spec fn trim_back(s: Seq<char>) -> Seq<char>
    decreases s.len(),
{
    if s.len() > 0 && is_white_space(s.last()) {
        trim_back(s.drop_last())
    } else {
        s
    }
}

/// `s` without leading and trailing white space (as `str::trim`).
pub open spec fn trim_text(s: Seq<char>) -> Seq<char> {
    trim_back(trim_front(s))
}

proof fn lemma_trim_front(s: Seq<char>, a: int)
    requires
        0 <= a <= s.len(),
        forall|i: int| 0 <= i < a ==> is_white_space(#[trigger] s[i]),
        a == s.len() || !is_white_space(s[a]),
    ensures
        trim_front(s) == s.subrange(a, s.len() as int),
    decreases a,
{
    if a > 0 {
        assert forall|i: int| 0 <= i < a - 1 implies is_white_space(
            #[trigger] s.drop_first()[i],
        ) by {
            assert(s.drop_first()[i] == s[i + 1]);
        }
        lemma_trim_front(s.drop_first(), a - 1);
        assert(s.drop_first().subrange(a - 1, s.len() - 1) =~= s.subrange(a, s.len() as int));
    } else {
        assert(s.subrange(0, s.len() as int) =~= s);
    }
}

proof fn lemma_trim_back(s: Seq<char>, b: int)
    requires
        0 <= b <= s.len(),
        forall|i: int| b <= i < s.len() ==> is_white_space(#[trigger] s[i]),
        b == 0 || !is_white_space(s[b - 1]),
    ensures
        trim_back(s) == s.subrange(0, b),
    decreases s.len() - b,
{
    if b < s.len() {
        assert forall|i: int| b <= i < s.len() - 1 implies is_white_space(
            #[trigger] s.drop_last()[i],
        ) by {
            assert(s.drop_last()[i] == s[i]);
        }
        lemma_trim_back(s.drop_last(), b);
        assert(s.drop_last().subrange(0, b) =~= s.subrange(0, b));
    } else {
        assert(s.subrange(0, b) =~= s);
    }
}

/// The characters of `s` without leading and trailing white space.
pub fn trim_chars(s: &Vec<char>) -> (r: Vec<char>)
    ensures
        r@ == trim_text(s@),
{
    let mut a: usize = 0;
    while a < s.len() && is_white_space_char(s[a])
        invariant
            a <= s.len(),
            forall|i: int| 0 <= i < a ==> is_white_space(#[trigger] s@[i]),
        decreases s.len() - a,
    {
        a += 1;
    }
    proof {
        lemma_trim_front(s@, a as int);
    }
    let mut b: usize = s.len();
    while b > a && is_white_space_char(s[b - 1])
        invariant
            a <= b <= s.len(),
            forall|i: int| b <= i < s.len() ==> is_white_space(#[trigger] s@[i]),
        decreases b,
    {
        b -= 1;
    }
    let ghost front = s@.subrange(a as int, s.len() as int);
    proof {
        assert forall|i: int| b - a <= i < front.len() implies is_white_space(
            #[trigger] front[i],
        ) by {
            assert(front[i] == s@[a + i]);
        }
        if b > a {
            assert(front[b - a - 1] == s@[b - 1]);
        }
        lemma_trim_back(front, b - a);
    }
    let mut r: Vec<char> = Vec::new();
    for i in a..b
        invariant
            a <= b <= s.len(),
            r@ == s@.subrange(a as int, i as int),
    {
        r.push(s[i]);
        assert(s@.subrange(a as int, i + 1) == s@.subrange(a as int, i as int).push(s@[i as int]));
    }
    assert(front.subrange(0, b - a) =~= s@.subrange(a as int, b as int));
    r
}

} // verus!

verus! {

/// Whether two texts hold the same characters.
pub fn text_equals(a: &str, b: &str) -> (r: bool)
    ensures
        r == (a@ == b@),
{
    let x = chars_of(a);
    let y = chars_of(b);
    if x.len() != y.len() {
        return false;
    }
    let mut i: usize = 0;
    while i < x.len()
        invariant
            x@ == a@,
            y@ == b@,
            x.len() == y.len(),
            i <= x.len(),
            forall|k: int| 0 <= k < i ==> x@[k] == y@[k],
        decreases x.len() - i,
    {
        if x[i] != y[i] {
            assert(x@[i as int] != y@[i as int]);
            return false;
        }
        i += 1;
    }
    assert(x@ =~= y@);
    true
}

/// A copy of a text.
pub fn copy_text(s: &String) -> (r: String)
    ensures
        r@ == s@,
{
    s.clone()
}

} // verus!

verus! {

/// Whether two character sequences are equal.
pub fn chars_equal(a: &Vec<char>, b: &Vec<char>) -> (r: bool)
    ensures
        r == (a@ == b@),
{
    if a.len() != b.len() {
        return false;
    }
    let mut i: usize = 0;
    while i < a.len()
        invariant
            a.len() == b.len(),
            i <= a.len(),
            forall|k: int| 0 <= k < i ==> a@[k] == b@[k],
        decreases a.len() - i,
    {
        if a[i] != b[i] {
            assert(a@[i as int] != b@[i as int]);
            return false;
        }
        i += 1;
    }
    assert(a@ =~= b@);
    true
}

/// Whether the characters `a` spell the text `b`.
pub fn chars_equal_str(a: &Vec<char>, b: &str) -> (r: bool)
    ensures
        r == (a@ == b@),
{
    let bc = chars_of(b);
    chars_equal(a, &bc)
}

/// Whether `items` holds a sequence equal to `t`.
pub fn contains_chars_item(items: &Vec<Vec<char>>, t: &Vec<char>) -> (r: bool)
    ensures
        r == views(items@).contains(t@),
{
    let mut i: usize = 0;
    while i < items.len()
        invariant
            i <= items.len(),
            forall|k: int| 0 <= k < i ==> items@[k]@ != t@,
        decreases items.len() - i,
    {
        if chars_equal(&items[i], t) {
            assert(views(items@)[i as int] == t@);
            return true;
        }
        i += 1;
    }
    assert forall|k: int| 0 <= k < views(items@).len() implies views(items@)[k] != t@ by {
        assert(views(items@)[k] == items@[k]@);
    }
    false
}

/// `s` with every `from` character replaced by `to`.
pub open spec fn replace_char(s: Seq<char>, from: char, to: char) -> Seq<char> {
    s.map_values(|c: char| if c == from { to } else { c })
}

/// Replaces every `from` character of `s` by `to`.
pub fn replace_chars(s: &Vec<char>, from: char, to: char) -> (r: Vec<char>)
    ensures
        r@ == replace_char(s@, from, to),
{
    let mut r: Vec<char> = Vec::new();
    for i in 0..s.len()
        invariant
            r@ == replace_char(s@.take(i as int), from, to),
    {
        let c = s[i];
        r.push(if c == from { to } else { c });
        assert(replace_char(s@.take(i + 1), from, to) =~= replace_char(
            s@.take(i as int),
            from,
            to,
        ).push(if c == from { to } else { c }));
    }
    assert(s@.take(s.len() as int) == s@);
    r
}

pub open spec fn string_views(v: Seq<String>) -> Seq<Seq<char>> {
    v.map_values(|s: String| s@)
}

/// Strings holding the given character sequences.
pub fn strings_of(v: &Vec<Vec<char>>) -> (r: Vec<String>)
    ensures
        string_views(r@) == views(v@),
{
    let mut r: Vec<String> = Vec::new();
    for i in 0..v.len()
        invariant
            r@.len() == i,
            forall|k: int| 0 <= k < i ==> (#[trigger] r@[k])@ == v@[k]@,
    {
        let s = string_of(&v[i]);
        r.push(s);
    }
    assert(string_views(r@) =~= views(v@));
    r
}

} // verus!

verus! {

/// Total number of characters in a list of texts.
pub open spec fn total_len(pieces: Seq<Seq<char>>) -> int
    decreases pieces.len(),
{
    if pieces.len() == 0 {
        0
    } else {
        total_len(pieces.drop_last()) + pieces.last().len()
    }
}

pub proof fn lemma_total_len_push(pieces: Seq<Seq<char>>, p: Seq<char>)
    ensures
        total_len(pieces.push(p)) == total_len(pieces) + p.len(),
{
    assert(pieces.push(p).drop_last() =~= pieces);
}

/// The pieces of a split hold every character that is not a separator: their
/// lengths add up to the text's length less one per separator.
pub proof fn lemma_split_by_total_len(s: Seq<char>, sep: Separator)
    ensures
        split_by(s, sep).len() >= 1,
        total_len(split_by(s, sep)) + split_by(s, sep).len() - 1 == s.len(),
    decreases s.len(),
{
    if s.len() > 0 {
        lemma_split_by_total_len(s.drop_last(), sep);
        let prev = split_by(s.drop_last(), sep);
        if separates(sep, s.last()) {
            lemma_total_len_push(prev, Seq::empty());
        } else {
            let upd = prev.update(prev.len() - 1, prev.last().push(s.last()));
            assert(upd.drop_last() =~= prev.drop_last());
            assert(upd.last() == prev.last().push(s.last()));
            assert(total_len(upd) == total_len(upd.drop_last()) + upd.last().len());
            assert(total_len(prev) == total_len(prev.drop_last()) + prev.last().len());
        }
    } else {
        let e: Seq<Seq<char>> = seq![Seq::empty()];
        assert(e.drop_last() =~= Seq::<Seq<char>>::empty());
        assert(total_len(e) == total_len(e.drop_last()) + e.last().len());
    }
}

/// A prefix of a list of texts holds no more characters than the whole list.
pub proof fn lemma_total_len_prefix(pieces: Seq<Seq<char>>, k: int)
    requires
        0 <= k <= pieces.len(),
    ensures
        0 <= total_len(pieces.take(k)) <= total_len(pieces),
    decreases pieces.len() - k,
{
    if k < pieces.len() {
        lemma_total_len_prefix(pieces, k + 1);
        assert(pieces.take(k + 1).drop_last() =~= pieces.take(k));
    } else {
        assert(pieces.take(k) =~= pieces);
    }
    lemma_total_len_nonneg(pieces.take(k));
}

proof fn lemma_total_len_nonneg(pieces: Seq<Seq<char>>)
    ensures
        total_len(pieces) >= 0,
    decreases pieces.len(),
{
    if pieces.len() > 0 {
        lemma_total_len_nonneg(pieces.drop_last());
    }
}

} // verus!

verus! {

/// Value of a single ASCII digit.
pub open spec fn digit_value(c: char) -> int {
    (c as int) - ('0' as int)
}

pub open spec fn all_ascii_digits(s: Seq<char>) -> bool {
    forall|i: int| 0 <= i < s.len() ==> is_ascii_digit(#[trigger] s[i])
}

/// Decimal value of a sequence of ASCII digits.
pub open spec fn decimal_value(s: Seq<char>) -> int
    decreases s.len(),
{
    if s.len() == 0 {
        0
    } else {
        decimal_value(s.drop_last()) * 10 + digit_value(s.last())
    }
}

/// What `str::parse::<i64>` gives for the text `s`: an optional `+` or `-`
/// followed by one or more ASCII digits whose value fits in an `i64`.
pub open spec fn parse_i64_text(s: Seq<char>) -> Option<i64> {
    let negative = s.len() > 0 && s[0] == '-';
    let signed = s.len() > 0 && (s[0] == '-' || s[0] == '+');
    let digits = if signed {
        s.drop_first()
    } else {
        s
    };
    let value = if negative {
        -decimal_value(digits)
    } else {
        decimal_value(digits)
    };
    if digits.len() > 0 && all_ascii_digits(digits) && i64::MIN <= value <= i64::MAX {
        Some(value as i64)
    } else {
        None
    }
}

proof fn lemma_decimal_value_nonneg(s: Seq<char>)
    requires
        all_ascii_digits(s),
    ensures
        decimal_value(s) >= 0,
    decreases s.len(),
{
    if s.len() > 0 {
        assert(all_ascii_digits(s.drop_last())) by {
            assert forall|i: int| 0 <= i < s.drop_last().len() implies is_ascii_digit(
                #[trigger] s.drop_last()[i],
            ) by {
                assert(s.drop_last()[i] == s[i]);
            }
        }
        lemma_decimal_value_nonneg(s.drop_last());
        assert(is_ascii_digit(s[s.len() - 1]));
    }
}

/// Parses a decimal `i64` as `str::parse::<i64>` does.
pub fn parse_i64(s: &Vec<char>) -> (r: Option<i64>)
    ensures
        r == parse_i64_text(s@),
{
    let signed = s.len() > 0 && (s[0] == '-' || s[0] == '+');
    let negative = s.len() > 0 && s[0] == '-';
    let start: usize = if signed {
        1
    } else {
        0
    };
    let ghost digits = if signed {
        s@.drop_first()
    } else {
        s@
    };
    assert(digits =~= s@.subrange(start as int, s@.len() as int));
    if start >= s.len() {
        return None;
    }
    // The magnitude, exact while it is at most 2^63; `big` once it exceeds it.
    let mut acc: u128 = 0;
    let mut big = false;
    let mut i: usize = start;
    while i < s.len()
        invariant
            start <= i <= s.len(),
            digits == s@.subrange(start as int, s@.len() as int),
            digits == if s@.len() > 0 && (s@[0] == '-' || s@[0] == '+') {
                s@.drop_first()
            } else {
                s@
            },
            negative == (s@.len() > 0 && s@[0] == '-'),
            all_ascii_digits(s@.subrange(start as int, i as int)),
            !big ==> acc == decimal_value(s@.subrange(start as int, i as int)) && acc
                <= 0x8000_0000_0000_0000,
            big ==> decimal_value(s@.subrange(start as int, i as int)) > 0x8000_0000_0000_0000,
        decreases s.len() - i,
    {
        let c = s[i];
        let ghost prefix = s@.subrange(start as int, i as int);
        let ghost next = s@.subrange(start as int, i + 1);
        assert(next.drop_last() =~= prefix);
        assert(next.last() == c);
        if !('0' <= c && c <= '9') {
            assert(!all_ascii_digits(digits)) by {
                assert(digits[i - start] == c);
            }
            return None;
        }
        assert(all_ascii_digits(next)) by {
            assert forall|k: int| 0 <= k < next.len() implies is_ascii_digit(#[trigger] next[k]) by {
                if k < prefix.len() {
                    assert(next[k] == prefix[k]);
                }
            }
        }
        let d = (c as u32 - '0' as u32) as u128;
        proof {
            lemma_decimal_value_nonneg(prefix);
        }
        if !big {
            let v = acc * 10 + d;
            if v > 0x8000_0000_0000_0000 {
                big = true;
            } else {
                acc = v;
            }
        }
        i += 1;
    }
    assert(s@.subrange(start as int, s@.len() as int) == digits);
    if big {
        return None;
    }
    if negative {
        Some((0 - (acc as i128)) as i64)
    } else if acc <= 0x7fff_ffff_ffff_ffff {
        Some(acc as i64)
    } else {
        None
    }
}

} // verus!

verus! {

/// The decimal digits of `n`, most significant first.
pub open spec fn decimal_digits(n: nat) -> Seq<char>
    decreases n,
{
    if n < 10 {
        seq![((n + 48) as u32) as char]
    } else {
        decimal_digits(n / 10).push((((n % 10) + 48) as u32) as char)
    }
}

/// The decimal representation of `n` (as `u64::to_string`).
pub fn decimal_text(n: u64) -> (r: Vec<char>)
    ensures
        r@ == decimal_digits(n as nat),
    decreases n,
{
    if n < 10 {
        let c = ((n as u8) + 48) as char;
        let mut r: Vec<char> = Vec::new();
        r.push(c);
        assert(r@ =~= decimal_digits(n as nat));
        r
    } else {
        let mut r = decimal_text(n / 10);
        let c = (((n % 10) as u8) + 48) as char;
        r.push(c);
        r
    }
}

/// Appends the text `s` to `v`.
pub fn append_str(v: &mut Vec<char>, s: &str)
    ensures
        final(v)@ == old(v)@ + s@,
{
    let c = chars_of(s);
    append_chars(v, &c);
}

/// Appends the characters `c` to `v`.
pub fn append_chars(v: &mut Vec<char>, c: &Vec<char>)
    ensures
        final(v)@ == old(v)@ + c@,
{
    let ghost start = v@;
    for i in 0..c.len()
        invariant
            v@ == start + c@.take(i as int),
    {
        v.push(c[i]);
        assert(c@.take(i + 1) == c@.take(i as int).push(c@[i as int]));
        assert(start + c@.take(i + 1) =~= (start + c@.take(i as int)).push(c@[i as int]));
    }
    assert(c@.take(c.len() as int) == c@);
}

} // verus!
