//! Text as a sequence of characters: searching, trimming, splitting, joining and decimal numbers.
//!
//! Every function here states its result over `Seq<char>`, the view of `str` and `String`.

use vstd::prelude::*;
use vstd::slice::slice_subrange;

verus! {

/// [`String::push`] appends one character.
pub assume_specification[ String::push ](s: &mut String, ch: char)
    ensures
        final(s)@ == old(s)@.push(ch),
;

/// [`String::push_str`] appends a whole string slice.
pub assume_specification[ String::push_str ](s: &mut String, string: &str)
    ensures
        final(s)@ == old(s)@ + string@,
;

// ---------------------------------------------------------------------------
// Conversions
// ---------------------------------------------------------------------------

/// The characters of a string slice, in order.
pub fn chars_of(s: &str) -> (chars: Vec<char>)
    ensures
        chars@ == s@,
{
    let mut chars: Vec<char> = Vec::new();
    for c in it: s.chars()
        invariant
            it.seq() == s@,
            chars@ == s@.take(it.index()),
    {
        chars.push(c);
        assert(chars@ =~= s@.take(it.index() + 1));
    }
    assert(s@.take(s@.len() as int) =~= s@);
    chars
}

/// The string that holds exactly the given characters.
pub fn string_of(chars: &[char]) -> (s: String)
    ensures
        s@ == chars@,
{
    let mut s = String::new();
    for i in 0..chars.len()
        invariant
            s@ == chars@.take(i as int),
    {
        s.push(chars[i]);
        assert(s@ =~= chars@.take(i + 1));
    }
    assert(chars@.take(chars@.len() as int) =~= chars@);
    s
}

/// Whether two character sequences are the same.
pub fn same(a: &[char], b: &[char]) -> (r: bool)
    ensures
        r == (a@ == b@),
{
    if a.len() != b.len() {
        return false;
    }
    for i in 0..a.len()
        invariant
            a@.len() == b@.len(),
            forall|j: int| 0 <= j < i ==> a@[j] == b@[j],
    {
        if a[i] != b[i] {
            return false;
        }
    }
    assert(a@ =~= b@);
    true
}

/// Whether the characters spell the given string.
pub fn spells(a: &[char], s: &str) -> (r: bool)
    ensures
        r == (a@ == s@),
{
    let b = chars_of(s);
    same(a, b.as_slice())
}

/// Whether two strings hold the same characters.
pub fn same_str(a: &str, b: &str) -> (r: bool)
    ensures
        r == (a@ == b@),
{
    let left = chars_of(a);
    spells(left.as_slice(), b)
}

/// The views of a list of strings.
pub open spec fn texts(v: Seq<String>) -> Seq<Seq<char>> {
    v.map_values(|s: String| s@)
}

/// The view of an optional string.
pub open spec fn opt_text(o: Option<String>) -> Option<Seq<char>> {
    match o {
        Some(s) => Some(s@),
        None => None,
    }
}

/// The view of an optional string slice.
pub open spec fn opt_str(o: Option<&str>) -> Option<Seq<char>> {
    match o {
        Some(s) => Some(s@),
        None => None,
    }
}

pub proof fn lemma_texts_push(v: Seq<String>, s: String)
    ensures
        texts(v.push(s)) == texts(v).push(s@),
{
    assert(texts(v.push(s)) =~= texts(v).push(s@));
}

// ---------------------------------------------------------------------------
// Prefixes, suffixes and occurrences
// ---------------------------------------------------------------------------

/// Whether `p` stands in `s` at index `i`.
pub open spec fn occurs_at(s: Seq<char>, p: Seq<char>, i: int) -> bool {
    0 <= i && i + p.len() <= s.len() && s.subrange(i, i + p.len()) == p
}

pub open spec fn is_prefix(p: Seq<char>, s: Seq<char>) -> bool {
    occurs_at(s, p, 0)
}

/// The index of the first occurrence of `p` in `s` at or after `from`.
pub open spec fn first_from(s: Seq<char>, p: Seq<char>, from: int) -> Option<int>
    decreases s.len() + 1 - from,
{
    if from + p.len() > s.len() {
        None
    } else if occurs_at(s, p, from) {
        Some(from)
    } else {
        first_from(s, p, from + 1)
    }
}

/// The index of the first occurrence of `p` in `s`.
pub open spec fn first_at(s: Seq<char>, p: Seq<char>) -> Option<int> {
    first_from(s, p, 0)
}

/// The index of the last occurrence of `p` in `s` at or before `upto`.
pub open spec fn last_upto(s: Seq<char>, p: Seq<char>, upto: int) -> Option<int>
    decreases upto + 1,
{
    if upto < 0 {
        None
    } else if occurs_at(s, p, upto) {
        Some(upto)
    } else {
        last_upto(s, p, upto - 1)
    }
}

/// The index of the last occurrence of `p` in `s`.
pub open spec fn last_at(s: Seq<char>, p: Seq<char>) -> Option<int> {
    last_upto(s, p, s.len() - p.len())
}

/// `first_from` finds an occurrence, and none stands between `from` and it.
pub proof fn lemma_first_from(s: Seq<char>, p: Seq<char>, from: int)
    requires
        0 <= from,
    ensures
        match first_from(s, p, from) {
            Some(i) => from <= i && occurs_at(s, p, i) && forall|j: int|
                from <= j < i ==> !#[trigger] occurs_at(s, p, j),
            None => forall|j: int| from <= j ==> !#[trigger] occurs_at(s, p, j),
        },
    decreases s.len() + 1 - from,
{
    if from + p.len() <= s.len() && !occurs_at(s, p, from) {
        lemma_first_from(s, p, from + 1);
    }
}

/// `last_upto` finds an occurrence, and none stands between it and `upto`.
pub proof fn lemma_last_upto(s: Seq<char>, p: Seq<char>, upto: int)
    ensures
        match last_upto(s, p, upto) {
            Some(i) => 0 <= i <= upto && occurs_at(s, p, i) && forall|j: int|
                i < j <= upto ==> !#[trigger] occurs_at(s, p, j),
            None => forall|j: int| j <= upto ==> !#[trigger] occurs_at(s, p, j),
        },
    decreases upto + 1,
{
    if upto >= 0 && !occurs_at(s, p, upto) {
        lemma_last_upto(s, p, upto - 1);
    }
}

/// Any occurrence with none before it is the first one.
pub proof fn lemma_first_from_unique(s: Seq<char>, p: Seq<char>, from: int, at: int)
    requires
        0 <= from <= at,
        occurs_at(s, p, at),
        forall|j: int| from <= j < at ==> !#[trigger] occurs_at(s, p, j),
    ensures
        first_from(s, p, from) == Some(at),
{
    lemma_first_from(s, p, from);
}

/// Any occurrence with none after it is the last one.
pub proof fn lemma_last_at_unique(s: Seq<char>, p: Seq<char>, at: int)
    requires
        occurs_at(s, p, at),
        forall|j: int| at < j ==> !#[trigger] occurs_at(s, p, j),
    ensures
        last_at(s, p) == Some(at),
{
    lemma_last_upto(s, p, s.len() - p.len());
}

fn occurs(s: &[char], p: &[char], i: usize) -> (r: bool)
    requires
        i + p@.len() <= s@.len(),
    ensures
        r == occurs_at(s@, p@, i as int),
{
    let total: usize = s.len();
    let width: usize = p.len();
    same(slice_subrange(s, i, i + width), p)
}

pub fn starts_with(s: &[char], p: &str) -> (r: bool)
    ensures
        r == is_prefix(p@, s@),
{
    let p = chars_of(p);
    p.len() <= s.len() && occurs(s, p.as_slice(), 0)
}

pub fn strip_prefix<'a>(s: &'a [char], p: &str) -> (r: Option<&'a [char]>)
    ensures
        r is Some <==> is_prefix(p@, s@),
        r is Some ==> r->0@ == s@.skip(p@.len() as int),
{
    let p = chars_of(p);
    if p.len() <= s.len() && occurs(s, p.as_slice(), 0) {
        Some(slice_subrange(s, p.len(), s.len()))
    } else {
        None
    }
}

pub fn find(s: &[char], p: &[char]) -> (r: Option<usize>)
    ensures
        match r {
            Some(i) => first_at(s@, p@) == Some(i as int),
            None => first_at(s@, p@) is None,
        },
{
    if p.len() > s.len() {
        return None;
    }
    let last: usize = s.len() - p.len();
    let mut i: usize = 0;
    while i <= last
        invariant
            last == s@.len() - p@.len(),
            i <= last + 1,
            first_at(s@, p@) == first_from(s@, p@, i as int),
        decreases last + 1 - i,
    {
        if occurs(s, p, i) {
            return Some(i);
        }
        if i == last {
            assert(first_from(s@, p@, i + 1) is None);
            return None;
        }
        i += 1;
    }
    None
}

pub fn rfind(s: &[char], p: &[char]) -> (r: Option<usize>)
    ensures
        match r {
            Some(i) => last_at(s@, p@) == Some(i as int),
            None => last_at(s@, p@) is None,
        },
{
    if p.len() > s.len() {
        return None;
    }
    let mut i: usize = s.len() - p.len();
    loop
        invariant
            i + p@.len() <= s@.len(),
            last_at(s@, p@) == last_upto(s@, p@, i as int),
        decreases i,
    {
        if occurs(s, p, i) {
            return Some(i);
        }
        if i == 0 {
            assert(last_upto(s@, p@, -1) is None);
            return None;
        }
        i -= 1;
    }
}

/// Whether `p` stands anywhere in `s`.
pub open spec fn contains(s: Seq<char>, p: Seq<char>) -> bool {
    first_at(s, p) is Some
}

pub fn holds(s: &[char], p: &[char]) -> (r: bool)
    ensures
        r == contains(s@, p@),
{
    find(s, p).is_some()
}

/// The index of the first `c` at or after `from`, or the length of `s` where there is none.
pub open spec fn char_from(s: Seq<char>, c: char, from: int) -> int
    decreases s.len() - from,
{
    if from >= s.len() {
        s.len() as int
    } else if s[from] == c {
        from
    } else {
        char_from(s, c, from + 1)
    }
}

pub proof fn lemma_char_from(s: Seq<char>, c: char, from: int)
    requires
        0 <= from <= s.len(),
    ensures
        from <= char_from(s, c, from) <= s.len(),
        forall|j: int| from <= j < char_from(s, c, from) ==> s[j] != c,
        char_from(s, c, from) < s.len() ==> s[char_from(s, c, from)] == c,
    decreases s.len() - from,
{
    if from < s.len() && s[from] != c {
        lemma_char_from(s, c, from + 1);
    }
}

pub proof fn lemma_char_from_unique(s: Seq<char>, c: char, from: int, at: int)
    requires
        0 <= from <= at <= s.len(),
        forall|j: int| from <= j < at ==> s[j] != c,
        at < s.len() ==> s[at] == c,
    ensures
        char_from(s, c, from) == at,
{
    lemma_char_from(s, c, from);
}

pub fn find_char(s: &[char], c: char, from: usize) -> (r: usize)
    requires
        from <= s@.len(),
    ensures
        r == char_from(s@, c, from as int),
        from <= r <= s@.len(),
{
    let mut i: usize = from;
    while i < s.len()
        invariant
            from <= i <= s@.len(),
            char_from(s@, c, from as int) == char_from(s@, c, i as int),
        decreases s@.len() - i,
    {
        if s[i] == c {
            return i;
        }
        i += 1;
    }
    i
}

// ---------------------------------------------------------------------------
// White space
// ---------------------------------------------------------------------------

/// The characters with the Unicode property `White_Space`.
pub open spec fn is_space(c: char) -> bool {
    let n = c as u32;
    ||| 0x09 <= n <= 0x0d
    ||| n == 0x20
    ||| n == 0x85
    ||| n == 0xa0
    ||| n == 0x1680
    ||| 0x2000 <= n <= 0x200a
    ||| n == 0x2028
    ||| n == 0x2029
    ||| n == 0x202f
    ||| n == 0x205f
    ||| n == 0x3000
}

pub fn space(c: char) -> (r: bool)
    ensures
        r == is_space(c),
{
    let n: u32 = c as u32;
    (0x09 <= n && n <= 0x0d) || n == 0x20 || n == 0x85 || n == 0xa0 || n == 0x1680 || (0x2000 <= n
        && n <= 0x200a) || n == 0x2028 || n == 0x2029 || n == 0x202f || n == 0x205f || n == 0x3000
}

/// `s` without its leading white space.
pub open spec fn trim_start(s: Seq<char>) -> Seq<char>
    decreases s.len(),
{
    if s.len() > 0 && is_space(s[0]) {
        trim_start(s.drop_first())
    } else {
        s
    }
}

/// `s` without its trailing white space.
pub open spec fn trim_end(s: Seq<char>) -> Seq<char>
    decreases s.len(),
{
    if s.len() > 0 && is_space(s.last()) {
        trim_end(s.drop_last())
    } else {
        s
    }
}

/// `s` without white space at either end.
pub open spec fn trim(s: Seq<char>) -> Seq<char> {
    trim_end(trim_start(s))
}

/// Trimming keeps a middle part that neither begins nor ends with white space.
pub proof fn lemma_trim(s: Seq<char>)
    ensures
        trim(s).len() <= s.len(),
        trim_start(s).len() <= s.len(),
        trim_start(s).len() > 0 ==> !is_space(trim_start(s)[0]),
        trim(s).len() > 0 ==> !is_space(trim(s)[0]) && !is_space(trim(s).last()),
{
    lemma_trim_start(s);
    lemma_trim_end(trim_start(s));
}

pub proof fn lemma_trim_start(s: Seq<char>)
    ensures
        trim_start(s).len() <= s.len(),
        trim_start(s) == s.skip(s.len() - trim_start(s).len()),
        trim_start(s).len() > 0 ==> !is_space(trim_start(s)[0]),
    decreases s.len(),
{
    if s.len() > 0 && is_space(s[0]) {
        lemma_trim_start(s.drop_first());
        assert(s.drop_first().skip(s.drop_first().len() - trim_start(s).len()) =~= s.skip(
            s.len() - trim_start(s).len(),
        ));
    } else {
        assert(s.skip(0) =~= s);
    }
}

pub proof fn lemma_trim_end(s: Seq<char>)
    ensures
        trim_end(s).len() <= s.len(),
        trim_end(s) == s.take(trim_end(s).len() as int),
        trim_end(s).len() > 0 ==> !is_space(trim_end(s).last()),
    decreases s.len(),
{
    if s.len() > 0 && is_space(s.last()) {
        lemma_trim_end(s.drop_last());
        assert(s.drop_last().take(trim_end(s).len() as int) =~= s.take(trim_end(s).len() as int));
    } else {
        assert(s.take(s.len() as int) =~= s);
    }
}

/// Trimming takes away white space, all of it, and nothing else: what is left is a middle part of
/// the text, everything around it is white space, and it neither begins nor ends with any.
pub proof fn law_trimming_takes_the_blanks_around(s: Seq<char>) -> (r: (int, int))
    ensures
        0 <= r.0 <= r.1 <= s.len(),
        trim(s) == s.subrange(r.0, r.1),
        forall|i: int| 0 <= i < r.0 || r.1 <= i < s.len() ==> is_space(#[trigger] s[i]),
        r.0 < r.1 ==> !is_space(s[r.0]) && !is_space(s[r.1 - 1]),
{
    let t = trim_start(s);
    lemma_trim(s);
    lemma_trim_start(s);
    lemma_trim_end(t);
    lemma_blanks_before(s);
    lemma_blanks_behind(t);
    let a = s.len() - t.len();
    let b = a + trim(s).len();
    assert(trim(s) =~= s.subrange(a, b));
    assert forall|i: int| 0 <= i < a || b <= i < s.len() implies is_space(#[trigger] s[i]) by {
        if i >= b {
            assert(t[i - a] == s[i]);
        }
    }
    if a < b {
        assert(trim(s)[0] == s[a] && trim(s).last() == s[b - 1]);
    }
    (a, b)
}

proof fn lemma_blanks_before(s: Seq<char>)
    ensures
        trim_start(s).len() <= s.len(),
        forall|i: int| 0 <= i < s.len() - trim_start(s).len() ==> is_space(#[trigger] s[i]),
    decreases s.len(),
{
    if s.len() > 0 && is_space(s[0]) {
        let rest = s.drop_first();
        lemma_blanks_before(rest);
        assert forall|i: int| 0 <= i < s.len() - trim_start(s).len() implies is_space(
            #[trigger] s[i],
        ) by {
            if i > 0 {
                assert(rest[i - 1] == s[i]);
            }
        }
    }
}

proof fn lemma_blanks_behind(s: Seq<char>)
    ensures
        trim_end(s).len() <= s.len(),
        forall|i: int| trim_end(s).len() <= i < s.len() ==> is_space(#[trigger] s[i]),
    decreases s.len(),
{
    if s.len() > 0 && is_space(s.last()) {
        let rest = s.drop_last();
        lemma_blanks_behind(rest);
        assert forall|i: int| trim_end(s).len() <= i < s.len() implies is_space(#[trigger] s[i]) by {
            if i < rest.len() {
                assert(rest[i] == s[i]);
            }
        }
    }
}

pub fn trimmed_start<'a>(s: &'a [char]) -> (r: &'a [char])
    ensures
        r@ == trim_start(s@),
{
    let mut i: usize = 0;
    assert(s@.skip(0) =~= s@);
    while i < s.len() && space(s[i])
        invariant
            i <= s@.len(),
            trim_start(s@) == trim_start(s@.skip(i as int)),
        decreases s@.len() - i,
    {
        assert(s@.skip(i as int).drop_first() =~= s@.skip(i + 1));
        i += 1;
    }
    assert(s@.subrange(i as int, s@.len() as int) =~= s@.skip(i as int));
    slice_subrange(s, i, s.len())
}

pub fn trimmed_end<'a>(s: &'a [char]) -> (r: &'a [char])
    ensures
        r@ == trim_end(s@),
{
    let mut n: usize = s.len();
    assert(s@.take(n as int) =~= s@);
    while n > 0 && space(s[n - 1])
        invariant
            n <= s@.len(),
            trim_end(s@) == trim_end(s@.take(n as int)),
        decreases n,
    {
        assert(s@.take(n as int).drop_last() =~= s@.take(n - 1));
        n -= 1;
    }
    assert(s@.subrange(0, n as int) =~= s@.take(n as int));
    slice_subrange(s, 0, n)
}

pub fn trimmed<'a>(s: &'a [char]) -> (r: &'a [char])
    ensures
        r@ == trim(s@),
{
    trimmed_end(trimmed_start(s))
}

/// The index of the first white space at or after `from`, or the length of `s`.
pub open spec fn space_from(s: Seq<char>, from: int) -> int
    decreases s.len() - from,
{
    if from >= s.len() {
        s.len() as int
    } else if is_space(s[from]) {
        from
    } else {
        space_from(s, from + 1)
    }
}

pub proof fn lemma_space_from(s: Seq<char>, from: int)
    requires
        0 <= from <= s.len(),
    ensures
        from <= space_from(s, from) <= s.len(),
        from < s.len() && !is_space(s[from]) ==> from < space_from(s, from),
        forall|j: int| from <= j < space_from(s, from) ==> !is_space(s[j]),
        space_from(s, from) < s.len() ==> is_space(s[space_from(s, from)]),
    decreases s.len() - from,
{
    if from < s.len() && !is_space(s[from]) {
        lemma_space_from(s, from + 1);
    }
}

/// The runs of characters between white space, in order.
pub open spec fn words(s: Seq<char>) -> Seq<Seq<char>>
    decreases s.len(),
{
    let t = trim_start(s);
    if t.len() == 0 {
        Seq::empty()
    } else {
        let n = space_from(t, 0);
        proof {
            lemma_trim_start(s);
            lemma_space_from(t, 0);
        }
        seq![t.take(n)] + words(t.skip(n))
    }
}

/// The views of a list of character vectors.
pub open spec fn rows(v: Seq<Vec<char>>) -> Seq<Seq<char>> {
    v.map_values(|l: Vec<char>| l@)
}

pub proof fn lemma_rows_push(v: Seq<Vec<char>>, l: Vec<char>)
    ensures
        rows(v.push(l)) == rows(v).push(l@),
{
    assert(rows(v.push(l)) =~= rows(v).push(l@));
}

pub fn split_words(s: &[char]) -> (r: Vec<Vec<char>>)
    ensures
        rows(r@) == words(s@),
{
    let mut out: Vec<Vec<char>> = Vec::new();
    let mut rest: &[char] = s;
    assert(rows(out@) =~= Seq::empty());
    assert(rows(out@) + words(rest@) =~= words(s@));
    loop
        invariant
            rows(out@) + words(rest@) == words(s@),
        decreases rest@.len(),
    {
        let t = trimmed_start(rest);
        proof {
            lemma_trim_start(rest@);
        }
        if t.len() == 0 {
            assert(rows(out@) + words(rest@) =~= rows(out@));
            return out;
        }
        let mut n: usize = 0;
        while n < t.len() && !space(t[n])
            invariant
                n <= t@.len(),
                space_from(t@, 0) == space_from(t@, n as int),
            decreases t@.len() - n,
        {
            n += 1;
        }
        proof {
            lemma_space_from(t@, 0);
        }
        let word = vstd::slice::slice_to_vec(slice_subrange(t, 0, n));
        assert(word@ =~= t@.take(n as int));
        let ghost before = out@;
        let ghost old_rest = rest@;
        out.push(word);
        rest = slice_subrange(t, n, t.len());
        proof {
            lemma_rows_push(before, word);
            assert(rest@ =~= t@.skip(n as int));
            assert(words(old_rest) == seq![word@] + words(rest@));
            assert(rows(before).push(word@) + words(rest@) =~= rows(before) + (seq![word@] + words(
                rest@,
            )));
        }
    }
}

// ---------------------------------------------------------------------------
// Lines
// ---------------------------------------------------------------------------

/// A line without the carriage return that its line feed was preceded by.
pub open spec fn without_cr(s: Seq<char>) -> Seq<char> {
    if s.len() > 0 && s.last() == '\r' {
        s.drop_last()
    } else {
        s
    }
}

/// The lines of `s`: each ends in a line feed, with or without a carriage return before it, or at
/// the end of `s`; the last line feed opens no further line.
pub open spec fn text_lines(s: Seq<char>) -> Seq<Seq<char>>
    decreases s.len(),
{
    if s.len() == 0 {
        Seq::empty()
    } else {
        let i = char_from(s, '\n', 0);
        if i >= s.len() {
            seq![s]
        } else {
            proof {
                lemma_char_from(s, '\n', 0);
            }
            seq![without_cr(s.take(i))] + text_lines(s.skip(i + 1))
        }
    }
}

/// Text that ends in a line feed and whatever follows it have their own lines.
pub proof fn lemma_lines_concat(x: Seq<char>, y: Seq<char>)
    requires
        x.len() > 0,
        x.last() == '\n',
    ensures
        text_lines(x + y) == text_lines(x) + text_lines(y),
    decreases x.len(),
{
    let i = char_from(x, '\n', 0);
    lemma_char_from(x, '\n', 0);
    assert(i < x.len());
    assert forall|j: int| 0 <= j < i implies (x + y)[j] != '\n' by {
        assert((x + y)[j] == x[j]);
    }
    lemma_char_from_unique(x + y, '\n', 0, i);
    assert((x + y).take(i) =~= x.take(i));
    assert((x + y).skip(i + 1) =~= x.skip(i + 1) + y);
    let line = without_cr(x.take(i));
    if i + 1 == x.len() {
        assert(x.skip(i + 1) =~= Seq::empty());
        assert(x.skip(i + 1) + y =~= y);
        assert(text_lines(Seq::<char>::empty()) =~= Seq::empty());
        assert(text_lines(x) =~= seq![line]);
    } else {
        lemma_lines_concat(x.skip(i + 1), y);
        assert(seq![line] + (text_lines(x.skip(i + 1)) + text_lines(y)) =~= (seq![line]
            + text_lines(x.skip(i + 1))) + text_lines(y));
    }
}

/// A last line feed after an open line changes no line.
pub proof fn lemma_lines_closed(x: Seq<char>)
    requires
        x.len() > 0,
        x.last() != '\n',
        x.last() != '\r',
    ensures
        text_lines(x.push('\n')) == text_lines(x),
    decreases x.len(),
{
    let i = char_from(x, '\n', 0);
    lemma_char_from(x, '\n', 0);
    let z = x.push('\n');
    lemma_char_from_unique(z, '\n', 0, i);
    assert(z.take(i) =~= x.take(i));
    if i < x.len() {
        assert(z.skip(i + 1) =~= x.skip(i + 1).push('\n'));
        lemma_lines_closed(x.skip(i + 1));
    } else {
        assert(x.take(i) =~= x);
        assert(z.skip(i + 1) =~= Seq::empty());
        assert(text_lines(Seq::<char>::empty()) =~= Seq::empty());
        assert(text_lines(z) =~= seq![x]);
    }
}

/// A single line, closed by a line feed.
pub proof fn lemma_one_line(x: Seq<char>)
    requires
        forall|j: int| 0 <= j < x.len() ==> x[j] != '\n',
        x.len() > 0 ==> x.last() != '\r',
    ensures
        text_lines(x.push('\n')) == seq![x],
{
    let z = x.push('\n');
    lemma_char_from_unique(z, '\n', 0, x.len() as int);
    assert(z.take(x.len() as int) =~= x);
    assert(z.skip(x.len() as int + 1) =~= Seq::empty());
    assert(text_lines(Seq::<char>::empty()) =~= Seq::empty());
    assert(text_lines(z) =~= seq![x]);
}

/// The lines as one text, each closed by a line feed.
pub open spec fn closed_lines(lines: Seq<Seq<char>>) -> Seq<char>
    decreases lines.len(),
{
    if lines.len() == 0 {
        Seq::empty()
    } else {
        lines[0].push('\n') + closed_lines(lines.drop_first())
    }
}

/// Lines that are written out one after another are read back as they were.
pub proof fn law_written_lines_are_read_back(lines: Seq<Seq<char>>)
    requires
        forall|k: int, j: int|
            0 <= k < lines.len() && 0 <= j < lines[k].len() ==> (#[trigger] lines[k][j]) != '\n',
        forall|k: int|
            0 <= k < lines.len() && (#[trigger] lines[k]).len() > 0 ==> lines[k].last() != '\r',
    ensures
        text_lines(closed_lines(lines)) == lines,
    decreases lines.len(),
{
    if lines.len() > 0 {
        let rest = lines.drop_first();
        assert forall|k: int, j: int| 0 <= k < rest.len() && 0 <= j < rest[k].len() implies (
        #[trigger] rest[k][j]) != '\n' by {
            assert(lines[k + 1][j] != '\n');
        }
        assert forall|k: int| 0 <= k < rest.len() && (#[trigger] rest[k]).len() > 0 implies rest[k]
            .last() != '\r' by {
            assert(rest[k] == lines[k + 1]);
        }
        law_written_lines_are_read_back(rest);
        let first = lines[0];
        assert forall|j: int| 0 <= j < first.len() implies first[j] != '\n' by {
            assert(lines[0][j] != '\n');
        }
        lemma_one_line(first);
        lemma_lines_concat(first.push('\n'), closed_lines(rest));
        assert(lines =~= seq![first] + rest);
    } else {
        assert(lines =~= text_lines(closed_lines(lines)));
    }
}

pub fn split_lines(s: &[char]) -> (r: Vec<Vec<char>>)
    ensures
        rows(r@) == text_lines(s@),
{
    let mut out: Vec<Vec<char>> = Vec::new();
    let mut rest: &[char] = s;
    assert(rows(out@) =~= Seq::empty());
    assert(rows(out@) + text_lines(rest@) =~= text_lines(s@));
    while rest.len() > 0
        invariant
            rows(out@) + text_lines(rest@) == text_lines(s@),
        decreases rest@.len(),
    {
        let i = find_char(rest, '\n', 0);
        let ghost before = out@;
        let ghost old_rest = rest@;
        if i >= rest.len() {
            let line = vstd::slice::slice_to_vec(rest);
            out.push(line);
            proof {
                lemma_rows_push(before, line);
                assert(rows(before) + seq![line@] =~= rows(before).push(line@));
            }
            return out;
        }
        let mut n: usize = i;
        if i > 0 && rest[i - 1] == '\r' {
            n = i - 1;
        }
        let line = vstd::slice::slice_to_vec(slice_subrange(rest, 0, n));
        assert(line@ =~= without_cr(old_rest.take(i as int)));
        out.push(line);
        rest = slice_subrange(rest, i + 1, rest.len());
        proof {
            lemma_rows_push(before, line);
            assert(rest@ =~= old_rest.skip(i + 1));
            assert(text_lines(old_rest) == seq![line@] + text_lines(rest@));
            assert(rows(before).push(line@) + text_lines(rest@) =~= rows(before) + (seq![line@]
                + text_lines(rest@)));
        }
    }
    assert(rows(out@) + text_lines(rest@) =~= rows(out@));
    out
}

// ---------------------------------------------------------------------------
// Replacing and joining
// ---------------------------------------------------------------------------

/// `s` with each occurrence of `pat` replaced, from the left and without overlap.
pub open spec fn replace_all(s: Seq<char>, pat: Seq<char>, with: Seq<char>) -> Seq<char>
    decreases s.len(),
{
    match first_at(s, pat) {
        Some(i) if pat.len() > 0 => {
            proof {
                lemma_first_from(s, pat, 0);
            }
            s.take(i) + with + replace_all(s.skip(i + pat.len()), pat, with)
        },
        _ => s,
    }
}

/// A one-character pattern is found where the character is.
pub proof fn lemma_first_char(s: Seq<char>, c: char)
    ensures
        first_at(s, seq![c]) == if char_from(s, c, 0) < s.len() {
            Some(char_from(s, c, 0))
        } else {
            None
        },
{
    lemma_char_from(s, c, 0);
    lemma_first_from(s, seq![c], 0);
    assert forall|j: int| #[trigger] occurs_at(s, seq![c], j) implies 0 <= j < s.len() && s[j]
        == c by {
        assert(s.subrange(j, j + 1)[0] == s[j]);
    }
    let i = char_from(s, c, 0);
    if i < s.len() {
        assert(s.subrange(i, i + 1) =~= seq![c]);
        assert(occurs_at(s, seq![c], i));
    }
}

pub fn replaced(s: &[char], pat: &str, with: &str) -> (r: Vec<char>)
    requires
        pat@.len() > 0,
    ensures
        r@ == replace_all(s@, pat@, with@),
{
    let p = chars_of(pat);
    let w = chars_of(with);
    let mut out: Vec<char> = Vec::new();
    let mut rest: &[char] = s;
    assert(out@ + replace_all(rest@, pat@, with@) =~= replace_all(s@, pat@, with@));
    loop
        invariant
            p@ == pat@,
            w@ == with@,
            pat@.len() > 0,
            out@ + replace_all(rest@, pat@, with@) == replace_all(s@, pat@, with@),
        decreases rest@.len(),
    {
        let total: usize = rest.len();
        match find(rest, p.as_slice()) {
            Some(i) => {
                proof {
                    lemma_first_from(rest@, pat@, 0);
                }
                let ghost before = out@;
                let ghost old_rest = rest@;
                let mut head = vstd::slice::slice_to_vec(slice_subrange(rest, 0, i));
                let mut mid = vstd::slice::slice_to_vec(w.as_slice());
                out.append(&mut head);
                out.append(&mut mid);
                rest = slice_subrange(rest, i + p.len(), total);
                proof {
                    assert(rest@ =~= old_rest.skip(i + pat@.len()));
                    assert(old_rest.subrange(0, i as int) =~= old_rest.take(i as int));
                    assert(out@ + replace_all(rest@, pat@, with@) =~= before + (old_rest.take(
                        i as int,
                    ) + with@ + replace_all(rest@, pat@, with@)));
                }
            },
            None => {
                let mut tail = vstd::slice::slice_to_vec(rest);
                out.append(&mut tail);
                return out;
            },
        }
    }
}

/// The parts with `sep` between each two of them.
pub open spec fn join(parts: Seq<Seq<char>>, sep: Seq<char>) -> Seq<char>
    decreases parts.len(),
{
    if parts.len() == 0 {
        Seq::empty()
    } else if parts.len() == 1 {
        parts[0]
    } else {
        join(parts.drop_last(), sep) + sep + parts.last()
    }
}

/// Two white-space characters side by side.
pub open spec fn wide_gap(s: Seq<char>, i: int) -> bool {
    is_space(s[i]) && is_space(s[i + 1])
}

/// Words with one space between each two of them, and no other white space.
pub open spec fn single_spaced(s: Seq<char>) -> bool {
    &&& forall|i: int| 0 <= i < s.len() && is_space(#[trigger] s[i]) ==> s[i] == ' '
    &&& forall|i: int| 0 <= i < s.len() - 1 ==> !#[trigger] wide_gap(s, i)
    &&& s.len() > 0 ==> !is_space(s[0]) && !is_space(s.last())
}

proof fn lemma_join_first(word: Seq<char>, rest: Seq<Seq<char>>, sep: Seq<char>)
    ensures
        join(seq![word] + rest, sep) == if rest.len() == 0 {
            word
        } else {
            word + sep + join(rest, sep)
        },
    decreases rest.len(),
{
    let all = seq![word] + rest;
    if rest.len() == 0 {
        assert(all[0] == word);
    } else {
        assert(all.drop_last() =~= seq![word] + rest.drop_last());
        assert(all.last() == rest.last());
        lemma_join_first(word, rest.drop_last(), sep);
        if rest.len() == 1 {
            assert(join(all, sep) =~= word + sep + join(rest, sep));
        } else {
            assert(join(all, sep) =~= word + sep + join(rest, sep));
        }
    }
}

/// The words of a text, one space between each two, are no longer than the text, and hold nothing
/// but its characters and spaces.
pub proof fn lemma_words_joined(s: Seq<char>)
    ensures
        single_spaced(join(words(s), seq![' '])),
        join(words(s), seq![' ']).len() <= trim_start(s).len(),
        words(s).len() > 0 ==> join(words(s), seq![' ']).len() > 0,
        forall|i: int|
            0 <= i < join(words(s), seq![' ']).len() ==> #[trigger] join(words(s), seq![' '])[i]
                == ' ' || s.contains(join(words(s), seq![' '])[i]),
    decreases s.len(),
{
    let t = trim_start(s);
    lemma_trim_start(s);
    let all = join(words(s), seq![' ']);
    if t.len() > 0 {
        let n = space_from(t, 0);
        lemma_space_from(t, 0);
        let word = t.take(n);
        let rest = t.skip(n);
        lemma_words_joined(rest);
        lemma_join_first(word, words(rest), seq![' ']);
        let tail = join(words(rest), seq![' ']);
        assert forall|i: int| 0 <= i < t.len() implies s.contains(#[trigger] t[i]) by {
            assert(s[s.len() - t.len() + i] == t[i]);
        }
        assert forall|i: int| 0 <= i < word.len() implies !is_space(#[trigger] word[i]) by {
            assert(word[i] == t[i]);
        }
        if words(rest).len() == 0 {
            assert(all == word);
            assert forall|i: int| 0 <= i < all.len() - 1 implies !#[trigger] wide_gap(all, i) by {
                assert(!is_space(word[i]));
            }
        } else {
            assert(all == word + seq![' '] + tail);
            assert(rest.len() > 0) by {
                if rest.len() == 0 {
                    assert(trim_start(rest).len() == 0);
                }
            }
            assert(rest[0] == t[n]);
            lemma_trim_start(rest.drop_first());
            assert(trim_start(rest) == trim_start(rest.drop_first()));
            assert forall|i: int| 0 <= i < all.len() implies (#[trigger] all[i] == ' '
                || s.contains(all[i])) by {
                if i < n {
                    assert(all[i] == t[i]);
                } else if i > n {
                    assert(all[i] == tail[i - n - 1]);
                    if all[i] != ' ' {
                        let k = choose|k: int| 0 <= k < rest.len() && rest[k] == all[i];
                        assert(t[n + k] == all[i]);
                    }
                }
            }
            assert forall|i: int| 0 <= i < all.len() && is_space(#[trigger] all[i]) implies all[i]
                == ' ' by {
                if i < n {
                    assert(all[i] == word[i]);
                } else if i > n {
                    assert(all[i] == tail[i - n - 1]);
                }
            }
            assert forall|i: int| 0 <= i < all.len() - 1 implies !#[trigger] wide_gap(all, i) by {
                if i < n {
                    assert(all[i] == word[i]);
                } else if i == n {
                    assert(all[i + 1] == tail[0]);
                } else {
                    assert(all[i] == tail[i - n - 1]);
                    assert(all[i + 1] == tail[i - n]);
                    assert(!wide_gap(tail, i - n - 1));
                }
            }
            assert(all[0] == word[0]);
            assert(all.last() == tail.last());
        }
    }
}

/// A text that is already single-spaced is the text of its words.
pub proof fn lemma_single_spaced(s: Seq<char>)
    requires
        single_spaced(s),
    ensures
        join(words(s), seq![' ']) == s,
    decreases s.len(),
{
    lemma_trim_start(s);
    if s.len() > 0 {
        assert(trim_start(s) == s);
        let n = space_from(s, 0);
        lemma_space_from(s, 0);
        let word = s.take(n);
        let rest = s.skip(n);
        lemma_join_first(word, words(rest), seq![' ']);
        if n == s.len() {
            assert(rest.len() == 0);
            assert(trim_start(rest).len() == 0);
            assert(word =~= s);
        } else {
            assert(rest[0] == s[n]);
            let tail = s.skip(n + 1);
            assert(rest.drop_first() =~= tail);
            assert(trim_start(rest) == trim_start(tail));
            assert(!wide_gap(s, n));
            assert(tail[0] == s[n + 1]);
            assert(tail.last() == s.last());
            assert forall|i: int| 0 <= i < tail.len() && is_space(#[trigger] tail[i]) implies tail[i]
                == ' ' by {
                assert(tail[i] == s[n + 1 + i]);
            }
            assert forall|i: int| 0 <= i < tail.len() - 1 implies !#[trigger] wide_gap(
                tail,
                i,
            ) by {
                assert(!wide_gap(s, n + 1 + i));
            }
            lemma_single_spaced(tail);
            assert(words(rest) == words(tail));
            assert(words(tail).len() > 0);
            assert(word + seq![' '] + tail =~= s);
        }
    }
}

pub fn joined(parts: &Vec<Vec<char>>, sep: &str) -> (r: Vec<char>)
    ensures
        r@ == join(rows(parts@), sep@),
{
    let sep = chars_of(sep);
    let mut out: Vec<char> = Vec::new();
    for i in 0..parts.len()
        invariant
            out@ == join(rows(parts@).take(i as int), sep@),
    {
        proof {
            assert(rows(parts@).take(i + 1).drop_last() =~= rows(parts@).take(i as int));
            assert(rows(parts@).take(i + 1).last() == parts@[i as int]@);
        }
        if i > 0 {
            let mut s = vstd::slice::slice_to_vec(sep.as_slice());
            out.append(&mut s);
        }
        let mut part = vstd::slice::slice_to_vec(parts[i].as_slice());
        out.append(&mut part);
        assert(i == 0 ==> out@ =~= parts@[0]@);
    }
    assert(rows(parts@).take(parts@.len() as int) =~= rows(parts@));
    out
}

// ---------------------------------------------------------------------------
// Decimal numbers
// ---------------------------------------------------------------------------

pub open spec fn digit(n: nat) -> char {
    (48 + n) as char
}

/// A number in base ten, without leading zeros.
pub open spec fn decimal(n: nat) -> Seq<char>
    decreases n,
{
    if n < 10 {
        seq![digit(n)]
    } else {
        decimal(n / 10).push(digit(n % 10))
    }
}

/// A decimal number is a non-empty run of digits.
pub proof fn lemma_decimal(n: nat)
    ensures
        decimal(n).len() >= 1,
        all_digits(decimal(n)),
    decreases n,
{
    if n >= 10 {
        lemma_decimal(n / 10);
    }
}

pub fn decimal_of(n: u64) -> (r: Vec<char>)
    ensures
        r@ == decimal(n as nat),
    decreases n,
{
    let d: u8 = (n % 10) as u8;
    let c: char = (48u8 + d) as char;
    if n < 10 {
        let mut out: Vec<char> = Vec::new();
        out.push(c);
        assert(out@ =~= decimal(n as nat));
        out
    } else {
        let mut out = decimal_of(n / 10);
        out.push(c);
        out
    }
}

/// Appends the base-ten form of a number.
pub fn push_decimal(s: &mut String, n: u64)
    ensures
        final(s)@ == old(s)@ + decimal(n as nat),
{
    let d = decimal_of(n);
    let t = string_of(d.as_slice());
    s.push_str(t.as_str());
}

pub open spec fn is_digit(c: char) -> bool {
    '0' <= c <= '9'
}

/// The value of a run of digits.
pub open spec fn digits_value(s: Seq<char>) -> nat
    decreases s.len(),
{
    if s.len() == 0 {
        0
    } else {
        10 * digits_value(s.drop_last()) + (s.last() as nat - '0' as nat) as nat
    }
}

pub open spec fn all_digits(s: Seq<char>) -> bool {
    forall|i: int| 0 <= i < s.len() ==> is_digit(#[trigger] s[i])
}

/// `s` without a leading plus sign.
pub open spec fn without_plus(s: Seq<char>) -> Seq<char> {
    if s.len() > 0 && s[0] == '+' {
        s.drop_first()
    } else {
        s
    }
}

/// The number that digits, after an optional plus sign, denote.
pub open spec fn parse_decimal(s: Seq<char>) -> Option<nat> {
    if without_plus(s).len() > 0 && all_digits(without_plus(s)) {
        Some(digits_value(without_plus(s)))
    } else {
        None
    }
}

/// The `u32` that digits, after an optional plus sign, denote, where it fits.
pub open spec fn parse_u32(s: Seq<char>) -> Option<u32> {
    match parse_decimal(s) {
        Some(n) if n <= u32::MAX => Some(n as u32),
        _ => None,
    }
}

/// A number that is written in base ten is read back.
pub proof fn law_decimals_are_read_back(n: nat)
    ensures
        parse_decimal(decimal(n)) == Some(n),
        n <= u32::MAX ==> parse_u32(decimal(n)) == Some(n as u32),
{
    lemma_decimal(n);
    lemma_decimal_value(n);
    assert(is_digit(decimal(n)[0]));
    assert(without_plus(decimal(n)) == decimal(n));
}

proof fn lemma_decimal_value(n: nat)
    ensures
        digits_value(decimal(n)) == n,
    decreases n,
{
    if n < 10 {
        let s = decimal(n);
        assert(s.drop_last() =~= Seq::<char>::empty());
        assert(digits_value(s.drop_last()) == 0);
        assert(s.last() as nat == 48 + n);
    } else {
        lemma_decimal_value(n / 10);
        let s = decimal(n);
        assert(s.drop_last() =~= decimal(n / 10));
        assert(s.last() as nat == 48 + n % 10);
    }
}

proof fn lemma_digits_value_grows(s: Seq<char>, n: int)
    requires
        0 <= n <= s.len(),
    ensures
        digits_value(s.take(n)) <= digits_value(s),
    decreases s.len(),
{
    if n < s.len() {
        lemma_digits_value_grows(s.drop_last(), n);
        assert(s.drop_last().take(n) =~= s.take(n));
    } else {
        assert(s.take(n) =~= s);
    }
}

pub fn u32_of(s: &[char]) -> (r: Option<u32>)
    ensures
        r == parse_u32(s@),
{
    let total: usize = s.len();
    let mut body: &[char] = s;
    if total > 0 && s[0] == '+' {
        body = slice_subrange(s, 1, total);
        assert(body@ =~= s@.drop_first());
    }
    if body.len() == 0 {
        return None;
    }
    let mut value: u64 = 0;
    for i in 0..body.len()
        invariant
            body@ == without_plus(s@),
            value == digits_value(body@.take(i as int)),
            value <= u32::MAX,
            forall|j: int| 0 <= j < i ==> is_digit(#[trigger] body@[j]),
    {
        let c = body[i];
        if !('0' <= c && c <= '9') {
            assert(!is_digit(body@[i as int]));
            return None;
        }
        let d: u32 = c as u32 - 48;
        value = value * 10 + d as u64;
        assert(body@.take(i + 1).drop_last() =~= body@.take(i as int));
        if value > u32::MAX as u64 {
            proof {
                lemma_digits_value_grows(body@, i + 1);
            }
            return None;
        }
    }
    assert(body@.take(body@.len() as int) =~= body@);
    Some(value as u32)
}

// ---------------------------------------------------------------------------
// ASCII case
// ---------------------------------------------------------------------------

/// A character, in lower case where it is an ASCII capital.
pub open spec fn ascii_lower(c: char) -> char {
    if 'A' <= c <= 'Z' {
        ((c as u32) + 32) as char
    } else {
        c
    }
}

/// A text with its ASCII capitals in lower case.
pub open spec fn ascii_folded(s: Seq<char>) -> Seq<char> {
    s.map_values(|c: char| ascii_lower(c))
}

fn lower_ascii(c: char) -> (r: char)
    ensures
        r == ascii_lower(c),
{
    if 'A' <= c && c <= 'Z' {
        let small: u8 = c as u8 + 32;
        small as char
    } else {
        c
    }
}

/// A text with its ASCII capitals in lower case.
pub fn folded(s: &str) -> (r: Vec<char>)
    ensures
        r@ == ascii_folded(s@),
{
    let chars = chars_of(s);
    let mut r: Vec<char> = Vec::new();
    for i in 0..chars.len()
        invariant
            chars@ == s@,
            r@ =~= ascii_folded(s@).take(i as int),
    {
        r.push(lower_ascii(chars[i]));
    }
    assert(r@ =~= ascii_folded(s@));
    r
}

/// Whether two texts are the same but for ASCII case.
pub fn same_ignoring_case(a: &str, b: &str) -> (r: bool)
    ensures
        r == (ascii_folded(a@) == ascii_folded(b@)),
{
    let a = folded(a);
    let b = folded(b);
    same(a.as_slice(), b.as_slice())
}

// ---------------------------------------------------------------------------
// Separators
// ---------------------------------------------------------------------------

/// The parts of a text between the occurrences of a character.
pub open spec fn split_on(s: Seq<char>, c: char) -> Seq<Seq<char>>
    decreases s.len(),
    via split_on_decreases
{
    let at = char_from(s, c, 0);
    if at >= s.len() {
        seq![s]
    } else {
        seq![s.take(at)] + split_on(s.skip(at + 1), c)
    }
}

#[via_fn]
proof fn split_on_decreases(s: Seq<char>, c: char) {
    lemma_char_from(s, c, 0);
}

/// The parts of a text between the occurrences of a character.
pub fn parts_of(s: &[char], c: char) -> (r: Vec<Vec<char>>)
    ensures
        rows(r@) == split_on(s@, c),
{
    let mut r: Vec<Vec<char>> = Vec::new();
    let mut start: usize = 0;
    assert(s@.skip(0) =~= s@);
    assert(rows(r@) + split_on(s@.skip(0), c) =~= split_on(s@, c));
    loop
        invariant
            start <= s@.len(),
            rows(r@) + split_on(s@.skip(start as int), c) == split_on(s@, c),
        decreases s@.len() - start,
    {
        let ghost rest = s@.skip(start as int);
        let at: usize = find_char(s, c, start);
        proof {
            lemma_char_from(s@, c, start as int);
            lemma_char_from_unique(rest, c, 0, at - start);
        }
        let mut part: Vec<char> = Vec::new();
        for i in start..at
            invariant
                start <= at <= s@.len(),
                part@ == s@.subrange(start as int, i as int),
        {
            part.push(s[i]);
            assert(part@ =~= s@.subrange(start as int, i + 1));
        }
        assert(part@ =~= rest.take(at - start));
        let ghost before = r@;
        proof {
            lemma_rows_push(before, part);
        }
        r.push(part);
        if at >= s.len() {
            assert(rest.take(at - start) =~= rest);
            assert(rows(r@) =~= rows(before) + seq![rest]);
            return r;
        }
        proof {
            assert(rest.skip(at - start + 1) =~= s@.skip(at + 1));
            assert(rows(r@) + split_on(s@.skip(at + 1), c) =~= rows(before) + (seq![
                rest.take(at - start),
            ] + split_on(s@.skip(at + 1), c)));
        }
        start = at + 1;
    }
}

// ---------------------------------------------------------------------------
// Order
// ---------------------------------------------------------------------------

/// Whether a text comes before another, by the code points of their characters.
pub open spec fn before(a: Seq<char>, b: Seq<char>) -> bool
    decreases a.len(),
{
    if b.len() == 0 {
        false
    } else if a.len() == 0 {
        true
    } else if a[0] != b[0] {
        a[0] < b[0]
    } else {
        before(a.skip(1), b.skip(1))
    }
}

/// Of two texts that differ exactly one comes before the other.
pub proof fn lemma_before_total(a: Seq<char>, b: Seq<char>)
    ensures
        before(a, b) || before(b, a) || a == b,
        !(before(a, b) && before(b, a)),
        before(a, b) ==> a != b,
    decreases a.len(),
{
    if a.len() > 0 && b.len() > 0 && a[0] == b[0] {
        lemma_before_total(a.skip(1), b.skip(1));
        if a.skip(1) == b.skip(1) {
            assert(a =~= seq![a[0]] + a.skip(1));
            assert(b =~= seq![b[0]] + b.skip(1));
        }
    } else if a.len() == 0 && b.len() == 0 {
        assert(a =~= b);
    }
}

pub proof fn lemma_before_chain(a: Seq<char>, b: Seq<char>, c: Seq<char>)
    requires
        before(a, b),
        before(b, c),
    ensures
        before(a, c),
    decreases a.len(),
{
    if a.len() > 0 && b.len() > 0 && c.len() > 0 && a[0] == b[0] && b[0] == c[0] {
        lemma_before_chain(a.skip(1), b.skip(1), c.skip(1));
    }
}

/// Whether a text comes before another.
pub fn comes_before(a: &str, b: &str) -> (r: bool)
    ensures
        r == before(a@, b@),
{
    let a = chars_of(a);
    let b = chars_of(b);
    let mut i: usize = 0;
    assert(a@.skip(0) =~= a@);
    assert(b@.skip(0) =~= b@);
    while i < a.len() && i < b.len() && a[i] == b[i]
        invariant
            i <= a@.len(),
            i <= b@.len(),
            before(a@.skip(i as int), b@.skip(i as int)) == before(a@, b@),
        decreases a@.len() - i,
    {
        proof {
            let x = a@.skip(i as int);
            let y = b@.skip(i as int);
            assert(x[0] == a@[i as int] && y[0] == b@[i as int]);
            assert(x.skip(1) =~= a@.skip(i + 1));
            assert(y.skip(1) =~= b@.skip(i + 1));
        }
        i += 1;
    }
    proof {
        let x = a@.skip(i as int);
        let y = b@.skip(i as int);
        if i < a@.len() {
            assert(x[0] == a@[i as int]);
        }
        if i < b@.len() {
            assert(y[0] == b@[i as int]);
        }
    }
    if i >= b.len() {
        false
    } else if i >= a.len() {
        true
    } else {
        a[i] < b[i]
    }
}

/// Folding turns the ASCII capitals into their small letters and leaves every other character, and
/// so does nothing to a text that has no capitals.
pub proof fn law_folding_lowers_capitals(s: Seq<char>, i: int)
    requires
        0 <= i < s.len(),
    ensures
        ascii_folded(s).len() == s.len(),
        'A' <= s[i] <= 'Z' ==> ascii_folded(s)[i] as u32 == s[i] as u32 + 32,
        !('A' <= s[i] <= 'Z') ==> ascii_folded(s)[i] == s[i],
{
}

} // verus!
