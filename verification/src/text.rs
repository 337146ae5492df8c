//! Text as sequences of characters: searching, trimming, splitting into lines
//! and ordering, each with its meaning stated over `Seq<char>`.

use vstd::prelude::*;

verus! {

broadcast use vstd::string::group_string_axioms;

/// `String::push` appends one character to the end of the string.
pub assume_specification[ String::push ](s: &mut String, c: char)
    ensures
        final(s)@ == old(s)@.push(c),
;

/// The characters of `s`, in order.
pub fn to_chars(s: &str) -> (v: Vec<char>)
    ensures
        v@ == s@,
{
    let mut v: Vec<char> = Vec::new();
    for c in it: s.chars()
        invariant
            it.seq() == s@,
            v@ == s@.take(it.index() as int),
    {
        v.push(c);
    }
    v
}

/// The string made of the characters `v[from..to]`.
pub fn to_string(v: &Vec<char>, from: usize, to: usize) -> (s: String)
    requires
        from <= to <= v.len(),
    ensures
        s@ == v@.subrange(from as int, to as int),
{
    let mut s = String::new();
    let mut i: usize = from;
    while i < to
        invariant
            from <= i <= to <= v.len(),
            s@ == v@.subrange(from as int, i as int),
        decreases to - i,
    {
        s.push(v[i]);
        i += 1;
    }
    s
}

/// The string made of all the characters of `v`.
pub fn string_of(v: &Vec<char>) -> (s: String)
    ensures
        s@ == v@,
{
    to_string(v, 0, v.len())
}

/// A copy of the characters `v[from..to]`.
pub fn slice(v: &Vec<char>, from: usize, to: usize) -> (r: Vec<char>)
    requires
        from <= to <= v.len(),
    ensures
        r@ == v@.subrange(from as int, to as int),
{
    let mut r: Vec<char> = Vec::new();
    let mut i: usize = from;
    while i < to
        invariant
            from <= i <= to <= v.len(),
            r@ == v@.subrange(from as int, i as int),
        decreases to - i,
    {
        r.push(v[i]);
        i += 1;
    }
    r
}

/// Appends the characters of `tail` to `v`.
pub fn append(v: &mut Vec<char>, tail: &Vec<char>)
    ensures
        final(v)@ == old(v)@ + tail@,
{
    let mut i: usize = 0;
    while i < tail.len()
        invariant
            i <= tail.len(),
            v@ == old(v)@ + tail@.take(i as int),
        decreases tail.len() - i,
    {
        v.push(tail[i]);
        i += 1;
    }
}

/// Whether `a` and `b` hold the same characters.
pub fn same(a: &Vec<char>, b: &Vec<char>) -> (r: bool)
    ensures
        r == (a@ == b@),
{
    if a.len() != b.len() {
        return false;
    }
    let mut i: usize = 0;
    while i < a.len()
        invariant
            i <= a.len(),
            a.len() == b.len(),
            a@.take(i as int) == b@.take(i as int),
        decreases a.len() - i,
    {
        if a[i] != b[i] {
            return false;
        }
        assert(a@.take(i + 1) == a@.take(i as int).push(a@[i as int]));
        assert(b@.take(i + 1) == b@.take(i as int).push(b@[i as int]));
        i += 1;
    }
    assert(a@ == a@.take(a.len() as int));
    assert(b@ == b@.take(b.len() as int));
    true
}

/// `needle` stands in `hay` at index `i`.
pub open spec fn occurs_at(hay: Seq<char>, needle: Seq<char>, i: int) -> bool {
    &&& 0 <= i
    &&& i + needle.len() <= hay.len()
    &&& hay.subrange(i, i + needle.len()) == needle
}

/// `hay` begins with `prefix`.
pub open spec fn starts_with(hay: Seq<char>, prefix: Seq<char>) -> bool {
    occurs_at(hay, prefix, 0)
}

/// `hay` ends with `suffix`.
pub open spec fn ends_with(hay: Seq<char>, suffix: Seq<char>) -> bool {
    occurs_at(hay, suffix, hay.len() - suffix.len())
}

/// `needle` stands somewhere in `hay`.
pub open spec fn contains(hay: Seq<char>, needle: Seq<char>) -> bool {
    exists|i: int| occurs_at(hay, needle, i)
}

/// Whether `needle` stands in `hay` at index `i`.
pub fn has_at(hay: &Vec<char>, needle: &Vec<char>, i: usize) -> (r: bool)
    ensures
        r == occurs_at(hay@, needle@, i as int),
{
    if needle.len() > hay.len() || i > hay.len() - needle.len() {
        return false;
    }
    let mut k: usize = 0;
    while k < needle.len()
        invariant
            k <= needle.len(),
            i + needle.len() <= hay.len(),
            forall|j: int| 0 <= j < k ==> hay@[i + j] == needle@[j],
        decreases needle.len() - k,
    {
        if hay[i + k] != needle[k] {
            assert(hay@.subrange(i as int, i + needle.len())[k as int] == hay@[i + k]);
            return false;
        }
        k += 1;
    }
    assert(hay@.subrange(i as int, i + needle.len()) =~= needle@);
    true
}

/// Whether `hay` begins with `prefix`.
pub fn begins_with(hay: &Vec<char>, prefix: &Vec<char>) -> (r: bool)
    ensures
        r == starts_with(hay@, prefix@),
{
    has_at(hay, prefix, 0)
}

/// Whether `hay` ends with `suffix`.
pub fn finishes_with(hay: &Vec<char>, suffix: &Vec<char>) -> (r: bool)
    ensures
        r == ends_with(hay@, suffix@),
{
    if suffix.len() > hay.len() {
        return false;
    }
    has_at(hay, suffix, hay.len() - suffix.len())
}

/// Whether `needle` stands somewhere in `hay`.
pub fn includes(hay: &Vec<char>, needle: &Vec<char>) -> (r: bool)
    ensures
        r == contains(hay@, needle@),
{
    if needle.len() > hay.len() {
        return false;
    }
    let last: usize = hay.len() - needle.len();
    let mut i: usize = 0;
    loop
        invariant
            i <= last,
            last == hay.len() - needle.len(),
            forall|j: int| 0 <= j < i ==> !occurs_at(hay@, needle@, j),
        decreases last - i,
    {
        if has_at(hay, needle, i) {
            return true;
        }
        if i == last {
            return false;
        }
        i += 1;
    }
}

/// White space: the characters that Unicode gives the property `White_Space`.
pub open spec fn is_white_space(c: char) -> bool {
    let n = c as u32;
    ||| 0x09 <= n <= 0x0D
    ||| n == 0x20
    ||| n == 0x85
    ||| n == 0xA0
    ||| n == 0x1680
    ||| 0x2000 <= n <= 0x200A
    ||| n == 0x2028
    ||| n == 0x2029
    ||| n == 0x202F
    ||| n == 0x205F
    ||| n == 0x3000
}

/// Whether `c` is white space.
pub fn is_space(c: char) -> (r: bool)
    ensures
        r == is_white_space(c),
{
    let n: u32 = c as u32;
    (0x09 <= n && n <= 0x0D) || n == 0x20 || n == 0x85 || n == 0xA0 || n == 0x1680 || (0x2000 <= n
        && n <= 0x200A) || n == 0x2028 || n == 0x2029 || n == 0x202F || n == 0x205F || n == 0x3000
}

/// `s` without its leading white space.
pub open spec fn trim_start(s: Seq<char>) -> Seq<char>
    decreases s.len(),
{
    if s.len() > 0 && is_white_space(s[0]) {
        trim_start(s.drop_first())
    } else {
        s
    }
}

/// `s` without its trailing white space.
pub open spec fn trim_end(s: Seq<char>) -> Seq<char>
    decreases s.len(),
{
    if s.len() > 0 && is_white_space(s.last()) {
        trim_end(s.drop_last())
    } else {
        s
    }
}

/// `s` without leading and trailing white space.
pub open spec fn trim(s: Seq<char>) -> Seq<char> {
    trim_end(trim_start(s))
}

/// The index in `v[from..to]` behind its leading white space.
pub fn skip_space(v: &Vec<char>, from: usize, to: usize) -> (a: usize)
    requires
        from <= to <= v.len(),
    ensures
        from <= a <= to,
        trim_start(v@.subrange(from as int, to as int)) == v@.subrange(a as int, to as int),
{
    let mut a: usize = from;
    while a < to && is_space(v[a])
        invariant
            from <= a <= to <= v.len(),
            trim_start(v@.subrange(from as int, to as int)) == trim_start(
                v@.subrange(a as int, to as int),
            ),
        decreases to - a,
    {
        assert(v@.subrange(a as int, to as int).drop_first() == v@.subrange(a + 1, to as int));
        a += 1;
    }
    a
}

/// The index in `v[from..to]` before its trailing white space.
pub fn skip_space_back(v: &Vec<char>, from: usize, to: usize) -> (b: usize)
    requires
        from <= to <= v.len(),
    ensures
        from <= b <= to,
        trim_end(v@.subrange(from as int, to as int)) == v@.subrange(from as int, b as int),
{
    let mut b: usize = to;
    while b > from && is_space(v[b - 1])
        invariant
            from <= b <= to <= v.len(),
            trim_end(v@.subrange(from as int, to as int)) == trim_end(
                v@.subrange(from as int, b as int),
            ),
        decreases b - from,
    {
        assert(v@.subrange(from as int, b as int).drop_last() == v@.subrange(from as int, b - 1));
        b -= 1;
    }
    b
}

/// The bounds of `v[from..to]` without leading and trailing white space.
pub fn trim_bounds(v: &Vec<char>, from: usize, to: usize) -> (r: (usize, usize))
    requires
        from <= to <= v.len(),
    ensures
        from <= r.0 <= r.1 <= to,
        trim(v@.subrange(from as int, to as int)) == v@.subrange(r.0 as int, r.1 as int),
{
    let a = skip_space(v, from, to);
    let b = skip_space_back(v, a, to);
    (a, b)
}

/// The index of the first line feed in `s`, or the length of `s` without one.
pub open spec fn line_end(s: Seq<char>) -> int
    decreases s.len(),
{
    if s.len() == 0 || s[0] == '\n' {
        0
    } else {
        1 + line_end(s.drop_first())
    }
}

/// The first line of `s`, without its line feed and without the carriage
/// return that stands before that line feed.
pub open spec fn first_line(s: Seq<char>) -> Seq<char> {
    let e = line_end(s);
    if e < s.len() && e > 0 && s[e - 1] == '\r' {
        s.subrange(0, e - 1)
    } else {
        s.subrange(0, e)
    }
}

/// What follows the first line of `s` and its line feed.
pub open spec fn after_first_line(s: Seq<char>) -> Seq<char> {
    let e = line_end(s);
    if e < s.len() {
        s.subrange(e + 1, s.len() as int)
    } else {
        Seq::empty()
    }
}

/// The lines of `s`. A line ends at a line feed or at the end of the text; a
/// carriage return before the line feed belongs to the line ending. Text that
/// ends with a line feed has no empty last line.
pub open spec fn lines(s: Seq<char>) -> Seq<Seq<char>>
    decreases s.len(),
{
    if s.len() == 0 {
        Seq::empty()
    } else {
        proof {
            lemma_line_end_bounds(s);
        }
        seq![first_line(s)] + lines(after_first_line(s))
    }
}

/// `line_end` is the first index that holds a line feed, or the length.
pub proof fn lemma_line_end(s: Seq<char>, k: int)
    requires
        0 <= k <= s.len(),
        forall|j: int| 0 <= j < k ==> s[j] != '\n',
        k == s.len() || s[k] == '\n',
    ensures
        line_end(s) == k,
    decreases s.len(),
{
    if k > 0 {
        lemma_line_end(s.drop_first(), k - 1);
    }
}

/// `line_end` stays within the text and no line feed stands before it.
pub proof fn lemma_line_end_bounds(s: Seq<char>)
    ensures
        0 <= line_end(s) <= s.len(),
        forall|j: int| 0 <= j < line_end(s) ==> s[j] != '\n',
        line_end(s) < s.len() ==> s[line_end(s)] == '\n',
    decreases s.len(),
{
    if !(s.len() == 0 || s[0] == '\n') {
        lemma_line_end_bounds(s.drop_first());
        assert forall|j: int| 0 <= j < line_end(s) implies s[j] != '\n' by {
            if j > 0 {
                assert(s[j] == s.drop_first()[j - 1]);
            }
        }
    }
}

/// The views of a sequence of character vectors.
pub open spec fn texts(v: Seq<Vec<char>>) -> Seq<Seq<char>> {
    v.map_values(|x: Vec<char>| x@)
}

/// The views of a sequence of strings.
pub open spec fn strings(v: Seq<String>) -> Seq<Seq<char>> {
    v.map_values(|x: String| x@)
}

/// The index at which the first line of `v[from..]` ends, and whether a line
/// feed ends it.
pub fn scan_line(v: &Vec<char>, from: usize) -> (e: usize)
    requires
        from <= v.len(),
    ensures
        from <= e <= v.len(),
        e - from == line_end(v@.subrange(from as int, v.len() as int)),
{
    let mut e: usize = from;
    while e < v.len() && v[e] != '\n'
        invariant
            from <= e <= v.len(),
            forall|j: int| from <= j < e ==> v@[j] != '\n',
        decreases v.len() - e,
    {
        e += 1;
    }
    proof {
        lemma_line_end(v@.subrange(from as int, v.len() as int), e - from);
    }
    e
}

/// Splits `v` into its lines.
pub fn split_lines(v: &Vec<char>) -> (out: Vec<Vec<char>>)
    ensures
        texts(out@) == lines(v@),
{
    let n: usize = v.len();
    let mut out: Vec<Vec<char>> = Vec::new();
    let mut start: usize = 0;
    assert(v@.subrange(0, n as int) == v@);
    while start < n
        invariant
            start <= n,
            n == v.len(),
            lines(v@) == texts(out@) + lines(v@.subrange(start as int, n as int)),
        decreases n - start,
    {
        let ghost rest = v@.subrange(start as int, n as int);
        let e = scan_line(v, start);
        let mut b: usize = e;
        if e < n && e > start && v[e - 1] == '\r' {
            b = e - 1;
        }
        let line = slice(v, start, b);
        let next: usize = if e < n {
            e + 1
        } else {
            n
        };
        proof {
            assert(line@ == first_line(rest));
            assert(v@.subrange(next as int, n as int) == after_first_line(rest));
            assert(texts(out@.push(line)) == texts(out@).push(line@));
            assert(texts(out@).push(line@) + lines(after_first_line(rest)) == texts(out@) + (
            seq![first_line(rest)] + lines(after_first_line(rest))));
        }
        out.push(line);
        start = next;
    }
    assert(lines(v@.subrange(n as int, n as int)) == Seq::<Seq<char>>::empty());
    out
}

/// `a` comes before `b`, or equals it, in lexicographic order by code point.
pub open spec fn lex_le(a: Seq<char>, b: Seq<char>) -> bool
    decreases a.len(),
{
    if a.len() == 0 {
        true
    } else if b.len() == 0 {
        false
    } else if a[0] != b[0] {
        (a[0] as u32) < (b[0] as u32)
    } else {
        lex_le(a.drop_first(), b.drop_first())
    }
}

/// Every text comes before, or equals, itself.
pub proof fn lemma_lex_le_reflexive(a: Seq<char>)
    ensures
        lex_le(a, a),
    decreases a.len(),
{
    if a.len() > 0 {
        lemma_lex_le_reflexive(a.drop_first());
    }
}

/// Two texts that come before each other are equal.
pub proof fn lemma_lex_le_antisymmetric(a: Seq<char>, b: Seq<char>)
    requires
        lex_le(a, b),
        lex_le(b, a),
    ensures
        a == b,
    decreases a.len(),
{
    if a.len() > 0 && b.len() > 0 {
        lemma_lex_le_antisymmetric(a.drop_first(), b.drop_first());
        assert(a =~= seq![a[0]] + a.drop_first());
        assert(b =~= seq![b[0]] + b.drop_first());
    } else {
        assert(a =~= b);
    }
}

/// The order is transitive.
pub proof fn lemma_lex_le_transitive(a: Seq<char>, b: Seq<char>, c: Seq<char>)
    requires
        lex_le(a, b),
        lex_le(b, c),
    ensures
        lex_le(a, c),
    decreases a.len(),
{
    if a.len() > 0 && b.len() > 0 && c.len() > 0 {
        if a[0] == b[0] && b[0] == c[0] {
            lemma_lex_le_transitive(a.drop_first(), b.drop_first(), c.drop_first());
        }
    }
}

/// Any two texts are ordered one way or the other.
pub proof fn lemma_lex_le_total(a: Seq<char>, b: Seq<char>)
    ensures
        lex_le(a, b) || lex_le(b, a),
    decreases a.len(),
{
    if a.len() > 0 && b.len() > 0 {
        if a[0] == b[0] {
            lemma_lex_le_total(a.drop_first(), b.drop_first());
        } else {
            vstd::utf8::char_u32_cast(a[0], a[0] as u32);
            vstd::utf8::char_u32_cast(b[0], b[0] as u32);
        }
    }
}

/// The lexicographic order is a total order.
pub proof fn lemma_lex_le_total_ordering()
    ensures
        vstd::relations::total_ordering(|a: Seq<char>, b: Seq<char>| lex_le(a, b)),
{
    let leq = |a: Seq<char>, b: Seq<char>| lex_le(a, b);
    assert forall|a: Seq<char>| #[trigger] leq(a, a) by {
        lemma_lex_le_reflexive(a);
    }
    assert forall|a: Seq<char>, b: Seq<char>| #[trigger] leq(a, b) && #[trigger] leq(b, a) implies a
        == b by {
        lemma_lex_le_antisymmetric(a, b);
    }
    assert forall|a: Seq<char>, b: Seq<char>, c: Seq<char>| #[trigger] leq(a, b) && #[trigger] leq(
        b,
        c,
    ) implies leq(a, c) by {
        lemma_lex_le_transitive(a, b, c);
    }
    assert forall|a: Seq<char>, b: Seq<char>| #[trigger] leq(a, b) || #[trigger] leq(b, a) by {
        lemma_lex_le_total(a, b);
    }
}

/// Each text comes before, or equals, every later one.
pub open spec fn sorted(s: Seq<Seq<char>>) -> bool {
    forall|i: int, j: int| 0 <= i < j < s.len() ==> lex_le(#[trigger] s[i], #[trigger] s[j])
}

/// Whether `a` comes before `b`, or equals it, in lexicographic order.
pub fn le(a: &Vec<char>, b: &Vec<char>) -> (r: bool)
    ensures
        r == lex_le(a@, b@),
{
    let mut i: usize = 0;
    assert(a@.skip(0) == a@ && b@.skip(0) == b@);
    while i < a.len() && i < b.len()
        invariant
            i <= a.len(),
            i <= b.len(),
            lex_le(a@, b@) == lex_le(a@.skip(i as int), b@.skip(i as int)),
        decreases a.len() - i,
    {
        if a[i] != b[i] {
            return (a[i] as u32) < (b[i] as u32);
        }
        assert(a@.skip(i as int).drop_first() == a@.skip(i + 1));
        assert(b@.skip(i as int).drop_first() == b@.skip(i + 1));
        i += 1;
    }
    i == a.len()
}

/// Whether the string `a` comes before `b`, or equals it.
pub fn str_le(a: &str, b: &str) -> (r: bool)
    ensures
        r == lex_le(a@, b@),
{
    let x = to_chars(a);
    let y = to_chars(b);
    le(&x, &y)
}

/// Inserting an item leaves the others in place and adds that one.
pub proof fn lemma_insert_to_multiset<A>(s: Seq<A>, p: int, x: A)
    requires
        0 <= p <= s.len(),
    ensures
        s.insert(p, x).to_multiset() == s.to_multiset().insert(x),
{
    broadcast use vstd::multiset::group_multiset_axioms;
    broadcast use vstd::seq_lib::group_to_multiset_ensures;

    let t = s.insert(p, x);
    assert(t.remove(p) =~= s);
    assert(t[p] == x);
    assert(t.remove(p).to_multiset() == t.to_multiset().remove(x));
    assert(t.to_multiset().count(x) > 0);
    assert(t.to_multiset() =~= s.to_multiset().insert(x));
}

/// The strings of `v` in lexicographic order.
pub fn sort_strings(v: &Vec<String>) -> (out: Vec<String>)
    ensures
        sorted(strings(out@)),
        strings(out@).to_multiset() == strings(v@).to_multiset(),
{
    broadcast use vstd::seq_lib::group_to_multiset_ensures;

    let mut out: Vec<String> = Vec::new();
    let mut i: usize = 0;
    assert(strings(v@.take(0)) =~= strings(out@));
    while i < v.len()
        invariant
            i <= v.len(),
            sorted(strings(out@)),
            strings(out@).to_multiset() == strings(v@.take(i as int)).to_multiset(),
        decreases v.len() - i,
    {
        let x = v[i].clone();
        let mut p: usize = out.len();
        while p > 0 && !str_le(out[p - 1].as_str(), x.as_str())
            invariant
                p <= out.len(),
                forall|k: int| p <= k < out.len() ==> !lex_le(#[trigger] strings(out@)[k], x@),
            decreases p,
        {
            p -= 1;
        }
        proof {
            let old_s = strings(out@);
            let new_s = old_s.insert(p as int, x@);
            assert(strings(out@.insert(p as int, x)) =~= new_s);
            assert forall|a: int, b: int| 0 <= a < b < new_s.len() implies lex_le(
                #[trigger] new_s[a],
                #[trigger] new_s[b],
            ) by {
                if b == p {
                    assert(new_s[a] == old_s[a]);
                    assert(old_s[p - 1] == out@[p - 1]@);
                    if a < p - 1 {
                        lemma_lex_le_transitive(old_s[a], old_s[p - 1], x@);
                    }
                } else if a == p {
                    assert(new_s[b] == old_s[b - 1]);
                    lemma_lex_le_total(old_s[b - 1], x@);
                } else if a < p && b > p {
                    assert(new_s[a] == old_s[a] && new_s[b] == old_s[b - 1]);
                } else if a < p && b < p {
                    assert(new_s[a] == old_s[a] && new_s[b] == old_s[b]);
                } else {
                    assert(new_s[a] == old_s[a - 1] && new_s[b] == old_s[b - 1]);
                }
            }
            lemma_insert_to_multiset(old_s, p as int, x@);
            let seen = strings(v@.take(i as int));
            assert(strings(v@.take(i + 1)) =~= seen.push(x@));
            vstd::seq_lib::to_multiset_build(seen, x@);
            assert(new_s.to_multiset() == strings(v@.take(i + 1)).to_multiset());
        }
        out.insert(p, x);
        i += 1;
    }
    assert(v@.take(v.len() as int) == v@);
    out
}

/// The index of the last `c` in `s`, or -1 where there is none.
pub open spec fn last_index(s: Seq<char>, c: char) -> int
    decreases s.len(),
{
    if s.len() == 0 {
        -1
    } else if s.last() == c {
        s.len() - 1
    } else {
        last_index(s.drop_last(), c)
    }
}

/// `last_index` stays within the text, finds `c`, and no later `c` follows.
pub proof fn lemma_last_index(s: Seq<char>, c: char)
    ensures
        -1 <= last_index(s, c) < s.len(),
        last_index(s, c) >= 0 ==> s[last_index(s, c)] == c,
        forall|j: int| last_index(s, c) < j < s.len() ==> s[j] != c,
    decreases s.len(),
{
    if s.len() > 0 && s.last() != c {
        lemma_last_index(s.drop_last(), c);
        assert forall|j: int| last_index(s, c) < j < s.len() implies s[j] != c by {
            if j < s.len() - 1 {
                assert(s[j] == s.drop_last()[j]);
            }
        }
    }
}

/// The index of the last `c` in `v[from..to]`, counted from `from`.
pub fn find_last(v: &Vec<char>, from: usize, to: usize, c: char) -> (r: Option<usize>)
    requires
        from <= to <= v.len(),
    ensures
        match r {
            Some(i) => from <= i < to && last_index(v@.subrange(from as int, to as int), c) == i
                - from,
            None => last_index(v@.subrange(from as int, to as int), c) == -1,
        },
{
    let ghost part = v@.subrange(from as int, to as int);
    let mut i: usize = to;
    while i > from
        invariant
            from <= i <= to <= v.len(),
            part == v@.subrange(from as int, to as int),
            forall|j: int| i <= j < to ==> v@[j] != c,
        decreases i,
    {
        i -= 1;
        if v[i] == c {
            proof {
                lemma_last_index(part, c);
                assert(part[i - from] == c);
                assert forall|j: int| i - from < j < part.len() implies part[j] != c by {
                    assert(part[j] == v@[from + j]);
                }
            }
            return Some(i);
        }
    }
    proof {
        lemma_last_index(part, c);
        if last_index(part, c) >= 0 {
            assert(part[last_index(part, c)] == v@[from + last_index(part, c)]);
        }
    }
    None
}

/// The character of a decimal digit.
pub open spec fn digit(d: int) -> char {
    if d == 0 {
        '0'
    } else if d == 1 {
        '1'
    } else if d == 2 {
        '2'
    } else if d == 3 {
        '3'
    } else if d == 4 {
        '4'
    } else if d == 5 {
        '5'
    } else if d == 6 {
        '6'
    } else if d == 7 {
        '7'
    } else if d == 8 {
        '8'
    } else {
        '9'
    }
}

/// The decimal digits of `n`, without leading zeros.
pub open spec fn decimal(n: nat) -> Seq<char>
    decreases n,
{
    if n < 10 {
        seq![digit(n as int)]
    } else {
        decimal(n / 10).push(digit((n % 10) as int))
    }
}

/// The character of the decimal digit `d`.
pub fn digit_char(d: usize) -> (c: char)
    requires
        d < 10,
    ensures
        c == digit(d as int),
{
    if d == 0 {
        '0'
    } else if d == 1 {
        '1'
    } else if d == 2 {
        '2'
    } else if d == 3 {
        '3'
    } else if d == 4 {
        '4'
    } else if d == 5 {
        '5'
    } else if d == 6 {
        '6'
    } else if d == 7 {
        '7'
    } else if d == 8 {
        '8'
    } else {
        '9'
    }
}

/// Appends the decimal digits of `n` to `out`.
pub fn push_decimal(out: &mut String, n: usize)
    ensures
        final(out)@ == old(out)@ + decimal(n as nat),
    decreases n,
{
    if n >= 10 {
        push_decimal(out, n / 10);
    }
    out.push(digit_char(n % 10));
    proof {
        if n >= 10 {
            assert(old(out)@ + decimal(n as nat) =~= (old(out)@ + decimal((n / 10) as nat)).push(
                digit((n % 10) as int),
            ));
        } else {
            assert(old(out)@ + decimal(n as nat) =~= old(out)@.push(digit(n as int)));
        }
    }
}

/// Appends the characters of `tail` to the string `out`.
pub fn push_str(out: &mut String, tail: &str)
    ensures
        final(out)@ == old(out)@ + tail@,
{
    let chars = to_chars(tail);
    let mut i: usize = 0;
    while i < chars.len()
        invariant
            i <= chars.len(),
            chars@ == tail@,
            out@ == old(out)@ + tail@.take(i as int),
        decreases chars.len() - i,
    {
        out.push(chars[i]);
        i += 1;
    }
}

/// The number of bytes that a character takes in UTF-8.
pub open spec fn utf8_width(c: char) -> int {
    let n = c as u32;
    if n < 0x80 {
        1
    } else if n < 0x800 {
        2
    } else if n < 0x10000 {
        3
    } else {
        4
    }
}

/// The number of bytes that a text takes in UTF-8.
pub open spec fn utf8_len(s: Seq<char>) -> int
    decreases s.len(),
{
    if s.len() == 0 {
        0
    } else {
        utf8_len(s.drop_last()) + utf8_width(s.last())
    }
}

/// The longest beginning of `s` that takes at most `max` bytes in UTF-8.
pub open spec fn utf8_prefix(s: Seq<char>, max: int) -> Seq<char>
    decreases s.len(),
{
    if s.len() == 0 || utf8_len(s) <= max {
        s
    } else {
        utf8_prefix(s.drop_last(), max)
    }
}

/// A beginning of a text takes no more bytes than the text.
pub proof fn lemma_utf8_len_take(s: Seq<char>, k: int)
    requires
        0 <= k <= s.len(),
    ensures
        0 <= utf8_len(s.take(k)) <= utf8_len(s),
    decreases s.len(),
{
    if k == s.len() {
        assert(s.take(k) == s);
        if s.len() > 0 {
            lemma_utf8_len_take(s.drop_last(), k - 1);
            assert(s.drop_last().take(k - 1) == s.drop_last());
        }
    } else {
        lemma_utf8_len_take(s.drop_last(), k);
        assert(s.drop_last().take(k) == s.take(k));
    }
}

/// The first `k` characters are the longest beginning that fits into `max`
/// bytes where they fit and one more character does not.
pub proof fn lemma_utf8_prefix(s: Seq<char>, max: int, k: int)
    requires
        0 <= k <= s.len(),
        utf8_len(s.take(k)) <= max,
        k < s.len() ==> utf8_len(s.take(k + 1)) > max,
    ensures
        utf8_prefix(s, max) == s.take(k),
        (k == s.len()) == (utf8_len(s) <= max),
    decreases s.len() - k,
{
    if k == s.len() {
        assert(s.take(k) == s);
    } else {
        lemma_utf8_len_take(s, k + 1);
        assert(s.drop_last().take(k) == s.take(k));
        if k + 1 < s.len() {
            assert(s.drop_last().take(k + 1) == s.take(k + 1));
        } else {
            assert(s.take(k + 1) == s);
        }
        if k < s.len() - 1 {
            lemma_utf8_prefix(s.drop_last(), max, k);
        } else {
            assert(s.drop_last() == s.take(k));
            lemma_utf8_prefix_fits(s.take(k), max);
        }
    }
}

/// A text that fits into `max` bytes is its own longest beginning that does.
pub proof fn lemma_utf8_prefix_fits(s: Seq<char>, max: int)
    requires
        utf8_len(s) <= max,
    ensures
        utf8_prefix(s, max) == s,
{
}

/// The number of bytes that `c` takes in UTF-8.
pub fn char_width(c: char) -> (w: usize)
    ensures
        w == utf8_width(c),
        1 <= w <= 4,
{
    let n: u32 = c as u32;
    if n < 0x80 {
        1
    } else if n < 0x800 {
        2
    } else if n < 0x10000 {
        3
    } else {
        4
    }
}

/// How many characters of `v` fit into `max` bytes of UTF-8.
pub fn utf8_fit(v: &Vec<char>, max: usize) -> (k: usize)
    requires
        max <= 0x1000_0000,
    ensures
        k <= v.len(),
        utf8_prefix(v@, max as int) == v@.take(k as int),
        (k == v.len()) == (utf8_len(v@) <= max),
{
    let mut k: usize = 0;
    let mut used: usize = 0;
    assert(v@.take(0) =~= Seq::<char>::empty());
    while k < v.len()
        invariant
            k <= v.len(),
            used == utf8_len(v@.take(k as int)),
            used <= max <= 0x1000_0000,
        decreases v.len() - k,
    {
        let w = char_width(v[k]);
        proof {
            assert(v@.take(k + 1).drop_last() == v@.take(k as int));
            assert(v@.take(k + 1).last() == v@[k as int]);
        }
        if used + w > max {
            proof {
                lemma_utf8_prefix(v@, max as int, k as int);
            }
            return k;
        }
        used = used + w;
        k += 1;
    }
    proof {
        lemma_utf8_prefix(v@, max as int, k as int);
    }
    k
}

/// The index of the first `c` in `s`, or the length of `s` without one.
pub open spec fn stop_at(s: Seq<char>, c: char) -> int
    decreases s.len(),
{
    if s.len() == 0 || s[0] == c {
        0
    } else {
        1 + stop_at(s.drop_first(), c)
    }
}

/// `stop_at` stays within the text, no `c` stands before it, and a `c`
/// stands at it unless it is the length.
pub proof fn lemma_stop_at(s: Seq<char>, c: char)
    ensures
        0 <= stop_at(s, c) <= s.len(),
        forall|j: int| 0 <= j < stop_at(s, c) ==> s[j] != c,
        stop_at(s, c) < s.len() ==> s[stop_at(s, c)] == c,
    decreases s.len(),
{
    if !(s.len() == 0 || s[0] == c) {
        lemma_stop_at(s.drop_first(), c);
        assert forall|j: int| 0 <= j < stop_at(s, c) implies s[j] != c by {
            if j > 0 {
                assert(s[j] == s.drop_first()[j - 1]);
            }
        }
    }
}

/// `stop_at` is the first index that holds `c`, or the length.
pub proof fn lemma_stop_at_is(s: Seq<char>, c: char, k: int)
    requires
        0 <= k <= s.len(),
        forall|j: int| 0 <= j < k ==> s[j] != c,
        k == s.len() || s[k] == c,
    ensures
        stop_at(s, c) == k,
    decreases s.len(),
{
    if k > 0 {
        lemma_stop_at_is(s.drop_first(), c, k - 1);
    }
}

/// The pieces of `s` between the separators `c`: one more than there are
/// separators.
pub open spec fn split(s: Seq<char>, c: char) -> Seq<Seq<char>>
    decreases s.len(),
{
    let e = stop_at(s, c);
    if e >= s.len() {
        seq![s]
    } else {
        proof {
            lemma_stop_at(s, c);
        }
        seq![s.subrange(0, e)] + split(s.subrange(e + 1, s.len() as int), c)
    }
}

/// Splits `v` at the separators `c`.
pub fn split_at_char(v: &Vec<char>, c: char) -> (out: Vec<Vec<char>>)
    ensures
        texts(out@) == split(v@, c),
        out@.len() >= 1,
{
    let n: usize = v.len();
    let mut out: Vec<Vec<char>> = Vec::new();
    let mut start: usize = 0;
    assert(v@.subrange(0, n as int) == v@);
    loop
        invariant
            start <= n,
            n == v.len(),
            split(v@, c) == texts(out@) + split(v@.subrange(start as int, n as int), c),
        decreases n - start,
    {
        let ghost rest = v@.subrange(start as int, n as int);
        let mut e: usize = start;
        while e < n && v[e] != c
            invariant
                start <= e <= n,
                n == v.len(),
                forall|j: int| start <= j < e ==> v@[j] != c,
            decreases n - e,
        {
            e += 1;
        }
        proof {
            lemma_stop_at_is(rest, c, e - start);
        }
        let piece = slice(v, start, e);
        proof {
            assert(texts(out@.push(piece)) == texts(out@).push(piece@));
        }
        out.push(piece);
        if e >= n {
            proof {
                assert(piece@ == rest);
            }
            return out;
        }
        proof {
            assert(rest.subrange(e + 1 - start, rest.len() as int) == v@.subrange(e + 1, n as int));
            assert(rest.subrange(0, e - start) == piece@);
        }
        start = e + 1;
    }
}

/// The texts with `sep` between them.
pub open spec fn join(parts: Seq<Seq<char>>, sep: Seq<char>) -> Seq<char>
    decreases parts.len(),
{
    if parts.len() == 0 {
        Seq::empty()
    } else if parts.len() == 1 {
        parts[0]
    } else {
        join(parts.drop_last(), sep) + sep + parts.last()
    }
}

/// Joins `parts[from..]` with `sep` between them.
pub fn join_from(parts: &Vec<Vec<char>>, from: usize, sep: &Vec<char>) -> (out: Vec<char>)
    requires
        from <= parts.len(),
    ensures
        out@ == join(texts(parts@).subrange(from as int, parts.len() as int), sep@),
{
    let mut out: Vec<char> = Vec::new();
    let mut i: usize = from;
    let ghost all = texts(parts@);
    assert(all.subrange(from as int, from as int) =~= Seq::<Seq<char>>::empty());
    while i < parts.len()
        invariant
            from <= i <= parts.len(),
            all == texts(parts@),
            out@ == join(all.subrange(from as int, i as int), sep@),
        decreases parts.len() - i,
    {
        proof {
            let upto = all.subrange(from as int, i + 1);
            assert(upto.drop_last() =~= all.subrange(from as int, i as int));
            assert(upto.last() == parts@[i as int]@);
        }
        if i > from {
            append(&mut out, sep);
        }
        append(&mut out, &parts[i]);
        i += 1;
    }
    out
}

/// A copy of a text as a string.
pub fn text_copy(s: &str) -> (r: String)
    ensures
        r@ == s@,
{
    let mut r = String::new();
    push_str(&mut r, s);
    r
}

/// Whether two strings hold the same characters.
pub fn same_text(a: &str, b: &str) -> (r: bool)
    ensures
        r == (a@ == b@),
{
    let x = to_chars(a);
    let y = to_chars(b);
    same(&x, &y)
}

} // verus!
