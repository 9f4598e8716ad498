//! Text as sequences of characters.
//!
//! Every parser in this crate works on `Vec<char>` and states its contract over
//! `Seq<char>`. This module holds the conversions from and to `String`, and the
//! handful of scanning operations the parsers share: trimming, searching,
//! splitting at a separator and splitting into lines.

use vstd::prelude::*;

verus! {

/// `String::push` of std appends the given character to the end of the
/// string.
pub assume_specification[ std::string::String::push ](s: &mut std::string::String, c: char)
    ensures
        final(s)@ == old(s)@.push(c),
;

/// `PartialEq::eq` of std on two string slices holds exactly when both hold
/// the same characters.
pub assume_specification[ <str as PartialEq>::eq ](a: &str, b: &str) -> (r: bool)
    ensures
        r == (a@ == b@),
;

/// The characters with the Unicode property `White_Space`.
pub open spec fn is_space(c: char) -> bool {
    let n = c as u32;
    ||| 0x09 <= n <= 0x0D
    ||| n == 0x20
    ||| n == 0x85
    ||| n == 0xA0
    ||| n == 0x1680
    ||| 0x2000 <= n <= 0x200A
    ||| n == 0x2028
    ||| n == 0x2029
    ||| n == 0x202F
    ||| n == 0x205F
    ||| n == 0x3000
}

/// Whether `c` is white space.
pub fn is_whitespace(c: char) -> (r: bool)
    ensures
        r == is_space(c),
{
    let n: u32 = c as u32;
    (0x09 <= n && n <= 0x0D) || n == 0x20 || n == 0x85 || n == 0xA0 || n == 0x1680 || (0x2000 <= n
        && n <= 0x200A) || n == 0x2028 || n == 0x2029 || n == 0x202F || n == 0x205F || n == 0x3000
}

/// A set of characters to strip from the ends of a text.
#[derive(Clone, Copy, Debug)]
pub enum CharClass {
    /// Any white space.
    Whitespace,
    /// One given character.
    Only(char),
}

impl CharClass {
    /// Whether `c` belongs to the class.
    pub open spec fn has(self, c: char) -> bool {
        match self {
            CharClass::Whitespace => is_space(c),
            CharClass::Only(d) => c == d,
        }
    }

    /// Whether `c` belongs to the class.
    pub fn contains(&self, c: char) -> (r: bool)
        ensures
            r == self.has(c),
    {
        match self {
            CharClass::Whitespace => is_whitespace(c),
            CharClass::Only(d) => c == *d,
        }
    }
}

/// How many characters at the start of `s` belong to `class`.
pub open spec fn leading_run(s: Seq<char>, class: CharClass) -> nat
    decreases s.len(),
{
    if s.len() > 0 && class.has(s[0]) {
        1 + leading_run(s.skip(1), class)
    } else {
        0
    }
}

/// How many characters at the end of `s` belong to `class`.
pub open spec fn trailing_run(s: Seq<char>, class: CharClass) -> nat
    decreases s.len(),
{
    if s.len() > 0 && class.has(s.last()) {
        1 + trailing_run(s.drop_last(), class)
    } else {
        0
    }
}

/// `s` without the characters of `class` at its start.
pub open spec fn without_leading(s: Seq<char>, class: CharClass) -> Seq<char> {
    s.skip(leading_run(s, class) as int)
}

/// `s` without the characters of `class` at its end.
pub open spec fn without_trailing(s: Seq<char>, class: CharClass) -> Seq<char> {
    s.take(s.len() - trailing_run(s, class))
}

/// `s` without the white space at either end.
pub open spec fn trimmed(s: Seq<char>) -> Seq<char> {
    without_trailing(without_leading(s, CharClass::Whitespace), CharClass::Whitespace)
}

/// The number of white-space characters before the first other character.
pub open spec fn indent_of(s: Seq<char>) -> nat {
    leading_run(s, CharClass::Whitespace)
}

/// `s` begins with `prefix`.
pub open spec fn has_prefix(s: Seq<char>, prefix: Seq<char>) -> bool {
    prefix.len() <= s.len() && s.take(prefix.len() as int) == prefix
}

/// The index of the first `c` in `s`, or `s.len()` where there is none.
pub open spec fn first_index(s: Seq<char>, c: char) -> nat
    decreases s.len(),
{
    if s.len() == 0 || s[0] == c {
        0
    } else {
        1 + first_index(s.skip(1), c)
    }
}

/// The index just behind the last `c` in `s`, or 0 where there is none.
pub open spec fn end_of_last(s: Seq<char>, c: char) -> nat
    decreases s.len(),
{
    if s.len() == 0 || s.last() == c {
        s.len()
    } else {
        end_of_last(s.drop_last(), c)
    }
}

/// The parts of `s` between occurrences of `sep`. There is always at least one
/// part; a separator at either end gives an empty part there.
pub open spec fn pieces(s: Seq<char>, sep: char) -> Seq<Seq<char>>
    decreases s.len(),
{
    let i = first_index(s, sep) as int;
    if i >= s.len() {
        seq![s]
    } else {
        seq![s.take(i)] + pieces(s.skip(i + 1), sep)
    }
}

/// `line` without one carriage return at its end.
pub open spec fn without_cr(line: Seq<char>) -> Seq<char> {
    if line.len() > 0 && line.last() == '\r' {
        line.drop_last()
    } else {
        line
    }
}

/// The lines of `s`. A line ends at a line feed, or at a carriage return
/// directly followed by one; the last line needs no line ending, and an empty
/// text has no lines.
pub open spec fn lines_of(s: Seq<char>) -> Seq<Seq<char>>
    decreases s.len(),
{
    let i = first_index(s, '\n') as int;
    if s.len() == 0 {
        seq![]
    } else if i >= s.len() {
        seq![s]
    } else {
        seq![without_cr(s.take(i))] + lines_of(s.skip(i + 1))
    }
}

/// The character sequences that the vectors of `v` hold, in order.
pub open spec fn rows(v: Seq<Vec<char>>) -> Seq<Seq<char>> {
    Seq::new(v.len(), |i: int| v[i]@)
}

/// The character sequences that the strings of `v` hold, in order.
pub open spec fn names(v: Seq<String>) -> Seq<Seq<char>> {
    Seq::new(v.len(), |i: int| v[i]@)
}

/// `leading_run` is the length of the longest run of `class` at the start.
pub proof fn lemma_leading_run(s: Seq<char>, class: CharClass)
    ensures
        leading_run(s, class) <= s.len(),
        forall|i: int| 0 <= i < leading_run(s, class) ==> class.has(#[trigger] s[i]),
        leading_run(s, class) < s.len() ==> !class.has(s[leading_run(s, class) as int]),
    decreases s.len(),
{
    if s.len() > 0 && class.has(s[0]) {
        lemma_leading_run(s.skip(1), class);
        let n = leading_run(s.skip(1), class) as int;
        assert forall|i: int| 0 <= i < n + 1 implies class.has(#[trigger] s[i]) by {
            if i > 0 {
                assert(s[i] == s.skip(1)[i - 1]);
            }
        }
        if n + 1 < s.len() {
            assert(s[n + 1] == s.skip(1)[n]);
        }
    }
}

/// `trailing_run` is the length of the longest run of `class` at the end.
pub proof fn lemma_trailing_run(s: Seq<char>, class: CharClass)
    ensures
        trailing_run(s, class) <= s.len(),
        forall|i: int|
            s.len() - trailing_run(s, class) <= i < s.len() ==> class.has(#[trigger] s[i]),
        trailing_run(s, class) < s.len() ==> !class.has(
            s[s.len() - trailing_run(s, class) - 1],
        ),
    decreases s.len(),
{
    if s.len() > 0 && class.has(s.last()) {
        lemma_trailing_run(s.drop_last(), class);
        let t = s.drop_last();
        let n = trailing_run(t, class) as int;
        assert forall|i: int| s.len() - (n + 1) <= i < s.len() implies class.has(
            #[trigger] s[i],
        ) by {
            if i < s.len() - 1 {
                assert(s[i] == t[i]);
            }
        }
        if n + 1 < s.len() {
            assert(s[s.len() - (n + 1) - 1] == t[t.len() - n - 1]);
        }
    }
}

/// `first_index` is the least index that holds `c`.
pub proof fn lemma_first_index(s: Seq<char>, c: char)
    ensures
        first_index(s, c) <= s.len(),
        forall|i: int| 0 <= i < first_index(s, c) ==> #[trigger] s[i] != c,
        first_index(s, c) < s.len() ==> s[first_index(s, c) as int] == c,
    decreases s.len(),
{
    if !(s.len() == 0 || s[0] == c) {
        lemma_first_index(s.skip(1), c);
        let n = first_index(s.skip(1), c) as int;
        assert forall|i: int| 0 <= i < n + 1 implies #[trigger] s[i] != c by {
            if i > 0 {
                assert(s[i] == s.skip(1)[i - 1]);
            }
        }
        if n + 1 < s.len() {
            assert(s[n + 1] == s.skip(1)[n]);
        }
    }
}

/// Any index that holds `c` and has no `c` before it is `first_index`.
pub proof fn lemma_first_index_is(s: Seq<char>, c: char, k: int)
    requires
        0 <= k <= s.len(),
        forall|i: int| 0 <= i < k ==> #[trigger] s[i] != c,
        k < s.len() ==> s[k] == c,
    ensures
        first_index(s, c) == k,
{
    lemma_first_index(s, c);
    let n = first_index(s, c) as int;
    if n < k {
        assert(s[n] != c);
    } else if n > k {
        assert(s[k] != c);
    }
}

/// `end_of_last` marks the last `c`: none stands at or behind it.
pub proof fn lemma_end_of_last(s: Seq<char>, c: char)
    ensures
        end_of_last(s, c) <= s.len(),
        forall|i: int| end_of_last(s, c) <= i < s.len() ==> #[trigger] s[i] != c,
        end_of_last(s, c) > 0 ==> s[end_of_last(s, c) - 1] == c,
    decreases s.len(),
{
    if !(s.len() == 0 || s.last() == c) {
        let t = s.drop_last();
        lemma_end_of_last(t, c);
        let n = end_of_last(t, c) as int;
        assert forall|i: int| n <= i < s.len() implies #[trigger] s[i] != c by {
            if i < s.len() - 1 {
                assert(s[i] == t[i]);
            }
        }
        if n > 0 {
            assert(s[n - 1] == t[n - 1]);
        }
    }
}

/// The characters of `s`.
pub fn to_chars(s: &str) -> (v: Vec<char>)
    ensures
        v@ == s@,
{
    let mut v: Vec<char> = Vec::new();
    for c in it: s.chars()
        invariant
            v@ == it.seq().take(it.index() as int),
            it.seq() == s@,
    {
        v.push(c);
    }
    v
}

/// The string that holds the characters of `v`.
pub fn to_string(v: &Vec<char>) -> (s: String)
    ensures
        s@ == v@,
{
    let mut s = String::new();
    let mut i: usize = 0;
    while i < v.len()
        invariant
            i <= v.len(),
            s@ == v@.take(i as int),
        decreases v.len() - i,
    {
        s.push(v[i]);
        i += 1;
    }
    s
}

/// A copy of the characters of `v` from `from` up to, not including, `to`.
pub fn slice(v: &Vec<char>, from: usize, to: usize) -> (r: Vec<char>)
    requires
        from <= to <= v.len(),
    ensures
        r@ == v@.subrange(from as int, to as int),
{
    let mut r: Vec<char> = Vec::new();
    let mut i: usize = from;
    while i < to
        invariant
            from <= i <= to <= v.len(),
            r@ == v@.subrange(from as int, i as int),
        decreases to - i,
    {
        r.push(v[i]);
        i += 1;
    }
    r
}

/// Whether `a` and `b` hold the same characters.
pub fn same(a: &Vec<char>, b: &Vec<char>) -> (r: bool)
    ensures
        r == (a@ == b@),
{
    if a.len() != b.len() {
        return false;
    }
    let mut i: usize = 0;
    while i < a.len()
        invariant
            i <= a.len() == b.len(),
            a@.take(i as int) == b@.take(i as int),
        decreases a.len() - i,
    {
        if a[i] != b[i] {
            return false;
        }
        i += 1;
        assert(a@.take(i as int) =~= a@.take(i - 1).push(a@[i - 1]));
        assert(b@.take(i as int) =~= b@.take(i - 1).push(b@[i - 1]));
    }
    assert(a@ =~= a@.take(i as int) && b@ =~= b@.take(i as int));
    true
}

/// Whether `v` holds exactly the characters of `word`.
pub fn is_word(v: &Vec<char>, word: &str) -> (r: bool)
    ensures
        r == (v@ == word@),
{
    let w = to_chars(word);
    same(v, &w)
}

/// The length of the longest run of characters of `class` at the start of
/// `v`.
pub fn count_leading(v: &Vec<char>, class: CharClass) -> (n: usize)
    ensures
        n == leading_run(v@, class),
        n <= v.len(),
        forall|i: int| 0 <= i < n ==> class.has(#[trigger] v@[i]),
        n < v.len() ==> !class.has(v@[n as int]),
{
    proof {
        lemma_leading_run(v@, class);
    }
    let mut i: usize = 0;
    assert(v@.skip(0) =~= v@);
    while i < v.len() && class.contains(v[i])
        invariant
            i <= v.len(),
            leading_run(v@, class) == i + leading_run(v@.skip(i as int), class),
        decreases v.len() - i,
    {
        assert(v@.skip(i as int).skip(1) =~= v@.skip(i + 1));
        i += 1;
    }
    i
}

/// The length of the longest run of characters of `class` at the end of
/// `v`.
pub fn count_trailing(v: &Vec<char>, class: CharClass) -> (n: usize)
    ensures
        n == trailing_run(v@, class),
        n <= v.len(),
        forall|i: int| v.len() - n <= i < v.len() ==> class.has(#[trigger] v@[i]),
        n < v.len() ==> !class.has(v@[v.len() - n - 1]),
{
    proof {
        lemma_trailing_run(v@, class);
    }
    let mut i: usize = v.len();
    assert(v@.take(v.len() as int) =~= v@);
    while i > 0 && class.contains(v[i - 1])
        invariant
            i <= v.len(),
            trailing_run(v@, class) == (v.len() - i) + trailing_run(v@.take(i as int), class),
        decreases i,
    {
        assert(v@.take(i as int).drop_last() =~= v@.take(i - 1));
        i -= 1;
    }
    v.len() - i
}

/// `v` without the characters of `class` at its start.
pub fn strip_leading(v: &Vec<char>, class: CharClass) -> (r: Vec<char>)
    ensures
        r@ == without_leading(v@, class),
{
    let n = count_leading(v, class);
    slice(v, n, v.len())
}

/// `v` without the characters of `class` at its end.
pub fn strip_trailing(v: &Vec<char>, class: CharClass) -> (r: Vec<char>)
    ensures
        r@ == without_trailing(v@, class),
{
    let n = count_trailing(v, class);
    slice(v, 0, v.len() - n)
}

/// `v` without the white space at either end.
pub fn trim(v: &Vec<char>) -> (r: Vec<char>)
    ensures
        r@ == trimmed(v@),
{
    let start = count_leading(v, CharClass::Whitespace);
    let rest = slice(v, start, v.len());
    strip_trailing(&rest, CharClass::Whitespace)
}

/// Whether `v` begins with `prefix`.
pub fn starts_with(v: &Vec<char>, prefix: &str) -> (r: bool)
    ensures
        r == has_prefix(v@, prefix@),
{
    let p = to_chars(prefix);
    if p.len() > v.len() {
        return false;
    }
    let head = slice(v, 0, p.len());
    same(&head, &p)
}

/// Whether the first character of `v` is `c`.
pub fn starts_with_char(v: &Vec<char>, c: char) -> (r: bool)
    ensures
        r == (v@.len() > 0 && v@[0] == c),
{
    v.len() > 0 && v[0] == c
}

/// Whether the last character of `v` is `c`.
pub fn ends_with_char(v: &Vec<char>, c: char) -> (r: bool)
    ensures
        r == (v@.len() > 0 && v@.last() == c),
{
    v.len() > 0 && v[v.len() - 1] == c
}

/// The first index at or behind `from` that holds `c`, or `v.len()`.
pub fn find_from(v: &Vec<char>, c: char, from: usize) -> (i: usize)
    requires
        from <= v.len(),
    ensures
        from <= i <= v.len(),
        i - from == first_index(v@.skip(from as int), c),
        forall|j: int| from <= j < i ==> #[trigger] v@[j] != c,
        i < v.len() ==> v@[i as int] == c,
{
    let mut i: usize = from;
    while i < v.len() && v[i] != c
        invariant
            from <= i <= v.len(),
            forall|j: int| from <= j < i ==> v@[j] != c,
        decreases v.len() - i,
    {
        i += 1;
    }
    proof {
        lemma_first_index_is(v@.skip(from as int), c, i - from);
    }
    i
}

/// The first index that holds `c`, or `v.len()`.
pub fn find(v: &Vec<char>, c: char) -> (i: usize)
    ensures
        i == first_index(v@, c),
        i <= v.len(),
        forall|j: int| 0 <= j < i ==> #[trigger] v@[j] != c,
        i < v.len() ==> v@[i as int] == c,
{
    proof {
        assert(v@.skip(0) =~= v@);
    }
    find_from(v, c, 0)
}

/// The index just behind the last `c`, or 0.
pub fn rfind_end(v: &Vec<char>, c: char) -> (i: usize)
    ensures
        i == end_of_last(v@, c),
        i <= v.len(),
        forall|j: int| i <= j < v.len() ==> #[trigger] v@[j] != c,
        i > 0 ==> v@[i - 1] == c,
{
    proof {
        lemma_end_of_last(v@, c);
    }
    let mut i: usize = v.len();
    assert(v@.take(v.len() as int) =~= v@);
    while i > 0 && v[i - 1] != c
        invariant
            i <= v.len(),
            end_of_last(v@, c) == end_of_last(v@.take(i as int), c),
        decreases i,
    {
        assert(v@.take(i as int).drop_last() =~= v@.take(i - 1));
        i -= 1;
    }
    i
}

/// The parts of `v` between occurrences of `sep`.
pub fn split(v: &Vec<char>, sep: char) -> (parts: Vec<Vec<char>>)
    ensures
        rows(parts@) == pieces(v@, sep),
        parts.len() >= 1,
{
    let mut parts: Vec<Vec<char>> = Vec::new();
    let mut start: usize = 0;
    assert(v@.skip(0) =~= v@);
    assert(rows(parts@) + pieces(v@, sep) =~= pieces(v@, sep));
    loop
        invariant_except_break
            start <= v.len(),
            pieces(v@, sep) == rows(parts@) + pieces(v@.skip(start as int), sep),
        ensures
            rows(parts@) == pieces(v@, sep),
            parts.len() >= 1,
        decreases v.len() - start,
    {
        let i = find_from(v, sep, start);
        let part = slice(v, start, i);
        let ghost rest = v@.skip(start as int);
        let ghost before = rows(parts@);
        assert(rest.take(i - start) =~= part@);
        parts.push(part);
        if i >= v.len() {
            assert(rest.take(rest.len() as int) =~= rest);
            assert(rows(parts@) =~= before + seq![rest]);
            break ;
        }
        assert(rest.skip(i - start + 1) =~= v@.skip(i + 1));
        assert(rows(parts@) =~= before + seq![rest.take(i - start)]);
        assert(before + (seq![rest.take(i - start)] + pieces(v@.skip(i + 1), sep)) =~= (before
            + seq![rest.take(i - start)]) + pieces(v@.skip(i + 1), sep));
        start = i + 1;
    }
    parts
}

/// The lines of `v`.
pub fn lines(v: &Vec<char>) -> (out: Vec<Vec<char>>)
    ensures
        rows(out@) == lines_of(v@),
{
    let mut out: Vec<Vec<char>> = Vec::new();
    let mut start: usize = 0;
    assert(v@.skip(0) =~= v@);
    assert(rows(out@) + lines_of(v@) =~= lines_of(v@));
    while start < v.len()
        invariant
            start <= v.len(),
            lines_of(v@) == rows(out@) + lines_of(v@.skip(start as int)),
        decreases v.len() - start,
    {
        let i = find_from(v, '\n', start);
        let ghost rest = v@.skip(start as int);
        let ghost before = rows(out@);
        if i >= v.len() {
            let line = slice(v, start, i);
            assert(line@ =~= rest);
            out.push(line);
            assert(rows(out@) =~= before + seq![rest]);
            assert(v@.skip(i as int) =~= Seq::<char>::empty());
            assert(lines_of(v@.skip(i as int)) =~= Seq::<Seq<char>>::empty());
            start = i;
        } else {
            let end = if i > start && v[i - 1] == '\r' {
                i - 1
            } else {
                i
            };
            let line = slice(v, start, end);
            assert(line@ =~= without_cr(rest.take(i - start))) by {
                assert(rest.take(i - start) =~= v@.subrange(start as int, i as int));
            }
            out.push(line);
            assert(rows(out@) =~= before + seq![without_cr(rest.take(i - start))]);
            assert(rest.skip(i - start + 1) =~= v@.skip(i + 1));
            assert(before + (seq![without_cr(rest.take(i - start))] + lines_of(v@.skip(i + 1)))
                =~= (before + seq![without_cr(rest.take(i - start))]) + lines_of(v@.skip(i + 1)));
            start = i + 1;
        }
    }
    proof {
        assert(v@.skip(start as int) =~= Seq::<char>::empty());
    }
    out
}

} // verus!
