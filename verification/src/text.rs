//! Character-level text primitives shared by the parser and the router.
//!
//! Every function here is stated over `Seq<char>`, the view of `str` and
//! `String`. The executable versions work on a `Vec<char>` and a pair of
//! indices, so that a text is decoded once and then scanned in place.

use vstd::prelude::*;
use vstd::std_specs::iter::IteratorSpec;

verus! {

/// Whether `c` carries the Unicode `White_Space` property.
pub open spec fn is_space(c: char) -> bool {
    let n = c as u32;
    ||| 0x09 <= n <= 0x0D
    ||| n == 0x20
    ||| n == 0x85
    ||| n == 0xA0
    ||| n == 0x1680
    ||| 0x2000 <= n <= 0x200A
    ||| n == 0x2028
    ||| n == 0x2029
    ||| n == 0x202F
    ||| n == 0x205F
    ||| n == 0x3000
}

/// Index of the first occurrence of `c` in `s`, or `s.len()` when `s` does
/// not hold `c`.
pub open spec fn position(s: Seq<char>, c: char) -> int
    decreases s.len(),
{
    if s.len() == 0 || s[0] == c {
        0
    } else {
        1 + position(s.drop_first(), c)
    }
}

/// Index of the last occurrence of `c` in `s`, or `-1` when `s` does not
/// hold `c`.
pub open spec fn last_position(s: Seq<char>, c: char) -> int
    decreases s.len(),
{
    if s.len() == 0 {
        -1
    } else if s.last() == c {
        s.len() - 1
    } else {
        last_position(s.drop_last(), c)
    }
}

/// Number of white-space characters at the front of `s`.
pub open spec fn leading_spaces(s: Seq<char>) -> int
    decreases s.len(),
{
    if s.len() > 0 && is_space(s[0]) {
        1 + leading_spaces(s.drop_first())
    } else {
        0
    }
}

/// Number of white-space characters at the back of `s`.
pub open spec fn trailing_spaces(s: Seq<char>) -> int
    decreases s.len(),
{
    if s.len() > 0 && is_space(s.last()) {
        1 + trailing_spaces(s.drop_last())
    } else {
        0
    }
}

/// `s` without its leading and trailing white space.
pub open spec fn trim(s: Seq<char>) -> Seq<char> {
    let rest = s.skip(leading_spaces(s));
    rest.take(rest.len() - trailing_spaces(rest))
}

/// `s` without one trailing carriage return, if it ends in one.
pub open spec fn strip_cr(s: Seq<char>) -> Seq<char> {
    if s.len() > 0 && s.last() == '\r' {
        s.drop_last()
    } else {
        s
    }
}

/// The lines of `s`. A line ends at a line feed, or at a carriage return
/// directly followed by one; the terminator belongs to no line, and a
/// terminator at the very end of `s` opens no further line.
pub open spec fn lines(s: Seq<char>) -> Seq<Seq<char>>
    decreases s.len(),
{
    if s.len() == 0 {
        Seq::empty()
    } else {
        let end = position(s, '\n');
        if 0 <= end < s.len() {
            seq![strip_cr(s.take(end))] + lines(s.skip(end + 1))
        } else {
            seq![s]
        }
    }
}

/// The lines of `ls` with one line feed between each two neighbours.
pub open spec fn join_lines(ls: Seq<Seq<char>>) -> Seq<char>
    decreases ls.len(),
{
    if ls.len() == 0 {
        Seq::empty()
    } else if ls.len() == 1 {
        ls[0]
    } else {
        join_lines(ls.drop_last()) + seq!['\n'] + ls.last()
    }
}

/// Whether `line` can be a line of a text: it holds no line feed and does
/// not end in a carriage return.
pub open spec fn is_line(line: Seq<char>) -> bool {
    !line.contains('\n') && strip_cr(line) == line
}

/// The text that holds the lines `ls`, each with a line feed behind it.
pub open spec fn block_text(ls: Seq<Seq<char>>) -> Seq<char>
    decreases ls.len(),
{
    if ls.len() == 0 {
        Seq::empty()
    } else {
        ls[0] + seq!['\n'] + block_text(ls.drop_first())
    }
}

/// The pieces into which the occurrences of `sep` cut `s`. There is one
/// piece more than there are occurrences, so that an `s` without `sep`,
/// the empty one too, gives `s` itself as its only piece.
pub open spec fn split(s: Seq<char>, sep: char) -> Seq<Seq<char>>
    decreases s.len(),
{
    let at = position(s, sep);
    if 0 <= at < s.len() {
        seq![s.take(at)] + split(s.skip(at + 1), sep)
    } else {
        seq![s]
    }
}

/// The text of each string of `strings`.
pub open spec fn texts_of(strings: Seq<String>) -> Seq<Seq<char>> {
    Seq::new(strings.len(), |i: int| strings[i]@)
}

/// Whether `s` begins with `prefix`.
pub open spec fn starts_with(s: Seq<char>, prefix: Seq<char>) -> bool {
    prefix.len() <= s.len() && s.take(prefix.len() as int) == prefix
}

/// `position` lies within the text, holds `c` where it lies before the end,
/// and has no `c` before it.
pub proof fn lemma_position_bounds(s: Seq<char>, c: char)
    ensures
        0 <= position(s, c) <= s.len(),
        position(s, c) < s.len() ==> s[position(s, c)] == c,
        forall|i: int| 0 <= i < position(s, c) ==> s[i] != c,
    decreases s.len(),
{
    if s.len() != 0 && s[0] != c {
        let rest = s.drop_first();
        lemma_position_bounds(rest, c);
        assert forall|i: int| 0 <= i < position(s, c) implies s[i] != c by {
            if i > 0 {
                assert(s[i] == rest[i - 1]);
            }
        }
    }
}

/// `position` is the only index that holds `c` and has no `c` before it.
pub proof fn lemma_position_unique(s: Seq<char>, c: char, p: int)
    requires
        0 <= p <= s.len(),
        p < s.len() ==> s[p] == c,
        forall|i: int| 0 <= i < p ==> s[i] != c,
    ensures
        position(s, c) == p,
{
    lemma_position_bounds(s, c);
}

/// `last_position` is `-1` or lies within the text, holds `c` where it is
/// not `-1`, and has no `c` behind it.
pub proof fn lemma_last_position_bounds(s: Seq<char>, c: char)
    ensures
        -1 <= last_position(s, c) < s.len(),
        last_position(s, c) >= 0 ==> s[last_position(s, c)] == c,
        forall|i: int| last_position(s, c) < i < s.len() ==> s[i] != c,
    decreases s.len(),
{
    if s.len() != 0 && s.last() != c {
        let rest = s.drop_last();
        lemma_last_position_bounds(rest, c);
        assert forall|i: int| last_position(s, c) < i < s.len() implies s[i] != c by {
            if i < s.len() - 1 {
                assert(s[i] == rest[i]);
            }
        }
    }
}

/// `last_position` is the only index that holds `c` and has no `c` behind it.
pub proof fn lemma_last_position_unique(s: Seq<char>, c: char, p: int)
    requires
        -1 <= p < s.len(),
        p >= 0 ==> s[p] == c,
        forall|i: int| p < i < s.len() ==> s[i] != c,
    ensures
        last_position(s, c) == p,
{
    lemma_last_position_bounds(s, c);
}

/// The leading white space is white space, and what follows it is not.
pub proof fn lemma_leading_spaces(s: Seq<char>)
    ensures
        0 <= leading_spaces(s) <= s.len(),
        leading_spaces(s) < s.len() ==> !is_space(s[leading_spaces(s)]),
        forall|i: int| 0 <= i < leading_spaces(s) ==> is_space(s[i]),
    decreases s.len(),
{
    if s.len() > 0 && is_space(s[0]) {
        let rest = s.drop_first();
        lemma_leading_spaces(rest);
        assert forall|i: int| 0 <= i < leading_spaces(s) implies is_space(s[i]) by {
            if i > 0 {
                assert(s[i] == rest[i - 1]);
            }
        }
    }
}

/// The trailing white space is white space, and what stands before it is
/// not.
pub proof fn lemma_trailing_spaces(s: Seq<char>)
    ensures
        0 <= trailing_spaces(s) <= s.len(),
        trailing_spaces(s) < s.len() ==> !is_space(s[s.len() - 1 - trailing_spaces(s)]),
        forall|i: int| s.len() - trailing_spaces(s) <= i < s.len() ==> is_space(s[i]),
    decreases s.len(),
{
    if s.len() > 0 && is_space(s.last()) {
        let rest = s.drop_last();
        lemma_trailing_spaces(rest);
        assert forall|i: int| s.len() - trailing_spaces(s) <= i < s.len() implies is_space(
            s[i],
        ) by {
            if i < s.len() - 1 {
                assert(s[i] == rest[i]);
            }
        }
    }
}

/// A count of leading white space is fixed by its two defining properties.
pub proof fn lemma_leading_spaces_unique(s: Seq<char>, n: int)
    requires
        0 <= n <= s.len(),
        n < s.len() ==> !is_space(s[n]),
        forall|i: int| 0 <= i < n ==> is_space(s[i]),
    ensures
        leading_spaces(s) == n,
{
    lemma_leading_spaces(s);
}

/// A count of trailing white space is fixed by its two defining properties.
pub proof fn lemma_trailing_spaces_unique(s: Seq<char>, n: int)
    requires
        0 <= n <= s.len(),
        n < s.len() ==> !is_space(s[s.len() - 1 - n]),
        forall|i: int| s.len() - n <= i < s.len() ==> is_space(s[i]),
    ensures
        trailing_spaces(s) == n,
{
    lemma_trailing_spaces(s);
    let m = trailing_spaces(s);
    if m < n {
        assert(is_space(s[s.len() - 1 - m]));
    } else if n < m {
        assert(is_space(s[s.len() - 1 - n]));
    }
}

/// What trimming gives neither begins nor ends with white space, and
/// trimming it again changes nothing.
pub proof fn lemma_trim_is_trimmed(s: Seq<char>)
    ensures
        trim(s).len() > 0 ==> !is_space(trim(s)[0]) && !is_space(trim(s).last()),
        trim(trim(s)) == trim(s),
{
    lemma_leading_spaces(s);
    let rest = s.skip(leading_spaces(s));
    lemma_trailing_spaces(rest);
    let t = trim(s);
    if t.len() > 0 {
        assert(t[0] == rest[0]);
        assert(t.last() == rest[rest.len() - 1 - trailing_spaces(rest)]);
        lemma_leading_spaces_unique(t, 0);
        lemma_trailing_spaces_unique(t, 0);
        assert(t.skip(0) == t);
        assert(t.take(t.len() as int) == t);
    } else {
        lemma_leading_spaces_unique(t, 0);
        lemma_trailing_spaces_unique(t, 0);
        assert(t.skip(0) == t);
        assert(t.take(t.len() as int) == t);
    }
}

/// The first line of a text is what stands before its first line feed,
/// and the other lines are the lines of what stands behind it.
pub proof fn lemma_lines_after_first(line: Seq<char>, rest: Seq<char>)
    requires
        !line.contains('\n'),
    ensures
        lines(line + seq!['\n'] + rest) == seq![strip_cr(line)] + lines(rest),
{
    let s = line + seq!['\n'] + rest;
    assert forall|i: int| 0 <= i < line.len() implies s[i] != '\n' by {
        assert(s[i] == line[i]);
        assert(line.contains(line[i]));
    }
    assert(s[line.len() as int] == '\n');
    lemma_position_unique(s, '\n', line.len() as int);
    assert(s.take(line.len() as int) == line);
    assert(s.skip(line.len() as int + 1) == rest);
}

/// The lines of a text that begins with the lines `ls`, each with its line
/// feed, are `ls` and then the lines of what follows.
pub proof fn lemma_lines_of_block(ls: Seq<Seq<char>>, tail: Seq<char>)
    requires
        forall|i: int| 0 <= i < ls.len() ==> is_line(#[trigger] ls[i]),
    ensures
        lines(block_text(ls) + tail) == ls + lines(tail),
    decreases ls.len(),
{
    if ls.len() == 0 {
        assert(block_text(ls) + tail == tail);
        assert(ls + lines(tail) == lines(tail));
    } else {
        let rest = ls.drop_first();
        assert forall|i: int| 0 <= i < rest.len() implies is_line(#[trigger] rest[i]) by {
            assert(rest[i] == ls[i + 1]);
        }
        lemma_lines_of_block(rest, tail);
        assert(is_line(ls[0]));
        assert(block_text(ls) + tail == ls[0] + seq!['\n'] + (block_text(rest) + tail));
        lemma_lines_after_first(ls[0], block_text(rest) + tail);
        assert(seq![ls[0]] + (rest + lines(tail)) == ls + lines(tail));
    }
}

/// A text that trimming leaves as it is has no white space at its ends.
pub proof fn lemma_trimmed_has_no_spaces_around(s: Seq<char>)
    requires
        trim(s) == s,
    ensures
        leading_spaces(s) == 0,
        trailing_spaces(s) == 0,
        s.len() > 0 ==> !is_space(s[0]) && !is_space(s.last()),
{
    lemma_leading_spaces(s);
    let rest = s.skip(leading_spaces(s));
    lemma_trailing_spaces(rest);
    assert(trim(s).len() == s.len() - leading_spaces(s) - trailing_spaces(rest));
    assert(rest == s);
}

/// White space in front of a text does not change what trimming gives.
pub proof fn lemma_trim_ignores_leading_space(c: char, s: Seq<char>)
    requires
        is_space(c),
    ensures
        trim(seq![c] + s) == trim(s),
{
    let t = seq![c] + s;
    assert(t.drop_first() == s);
    assert(leading_spaces(t) == 1 + leading_spaces(s));
    lemma_leading_spaces(s);
    assert(t.skip(leading_spaces(t)) == s.skip(leading_spaces(s)));
}

/// Whether `c` carries the Unicode `White_Space` property.
pub fn is_space_char(c: char) -> (b: bool)
    ensures
        b == is_space(c),
{
    let n: u32 = c as u32;
    (0x09 <= n && n <= 0x0D) || n == 0x20 || n == 0x85 || n == 0xA0 || n == 0x1680 || (0x2000 <= n
        && n <= 0x200A) || n == 0x2028 || n == 0x2029 || n == 0x202F || n == 0x205F || n == 0x3000
}

/// The characters of `s`, in order.
pub fn chars_of(s: &str) -> (v: Vec<char>)
    ensures
        v@ == s@,
{
    let mut v: Vec<char> = Vec::new();
    for c in it: s.chars()
        invariant
            it.seq() == s@,
            v@ == s@.take(it.index() as int),
    {
        v.push(c);
    }
    assert(v@ == s@);
    v
}

/// Appends one character to a string.
///
/// Trusted: this is `String::push`, which std documents as appending the
/// given `char` to the end of the string.
#[verifier::external_body]
fn push_char(s: &mut String, c: char)
    ensures
        final(s)@ == old(s)@.push(c),
{
    s.push(c)
}

/// The string that holds `cs[from..to]`.
pub fn string_of(cs: &Vec<char>, from: usize, to: usize) -> (s: String)
    requires
        from <= to <= cs.len(),
    ensures
        s@ == cs@.subrange(from as int, to as int),
{
    let mut s = String::new();
    let mut i: usize = from;
    while i < to
        invariant
            from <= i <= to <= cs.len(),
            s@ == cs@.subrange(from as int, i as int),
        decreases to - i,
    {
        push_char(&mut s, cs[i]);
        i = i + 1;
        assert(s@ == cs@.subrange(from as int, i as int));
    }
    s
}

/// Index of the first `c` in `cs[from..to]`, counted from the start of
/// `cs`, or `to` when that range does not hold `c`.
pub fn find_char(cs: &Vec<char>, from: usize, to: usize, c: char) -> (p: usize)
    requires
        from <= to <= cs.len(),
    ensures
        from <= p <= to,
        p < to ==> cs@[p as int] == c,
        p - from == position(cs@.subrange(from as int, to as int), c),
{
    let mut i: usize = from;
    while i < to && cs[i] != c
        invariant
            from <= i <= to <= cs.len(),
            forall|j: int| from <= j < i ==> cs@[j] != c,
        decreases to - i,
    {
        i = i + 1;
    }
    proof {
        lemma_position_unique(cs@.subrange(from as int, to as int), c, i - from);
    }
    i
}

/// Index of the last `c` in `cs[from..to]`, counted from the start of `cs`,
/// or `None` when that range does not hold `c`.
pub fn find_last_char(cs: &Vec<char>, from: usize, to: usize, c: char) -> (p: Option<usize>)
    requires
        from <= to <= cs.len(),
    ensures
        match p {
            Some(i) => from <= i < to && cs@[i as int] == c && i - from == last_position(
                cs@.subrange(from as int, to as int),
                c,
            ),
            None => last_position(cs@.subrange(from as int, to as int), c) == -1,
        },
{
    let mut i: usize = to;
    while i > from && cs[i - 1] != c
        invariant
            from <= i <= to <= cs.len(),
            forall|j: int| i <= j < to ==> cs@[j] != c,
        decreases i - from,
    {
        i = i - 1;
    }
    proof {
        lemma_last_position_unique(cs@.subrange(from as int, to as int), c, i - from - 1);
    }
    if i > from {
        Some(i - 1)
    } else {
        None
    }
}

/// The bounds of `cs[from..to]` once its leading and trailing white space is
/// left out.
pub fn trim_bounds(cs: &Vec<char>, from: usize, to: usize) -> (r: (usize, usize))
    requires
        from <= to <= cs.len(),
    ensures
        from <= r.0 <= r.1 <= to,
        cs@.subrange(r.0 as int, r.1 as int) == trim(cs@.subrange(from as int, to as int)),
{
    let mut a: usize = from;
    while a < to && is_space_char(cs[a])
        invariant
            from <= a <= to <= cs.len(),
            forall|j: int| from <= j < a ==> is_space(cs@[j]),
        decreases to - a,
    {
        a = a + 1;
    }
    let mut b: usize = to;
    while b > a && is_space_char(cs[b - 1])
        invariant
            a <= b <= to <= cs.len(),
            forall|j: int| b <= j < to ==> is_space(cs@[j]),
        decreases b - a,
    {
        b = b - 1;
    }
    proof {
        let s = cs@.subrange(from as int, to as int);
        lemma_leading_spaces_unique(s, a - from);
        let rest = s.skip(a - from);
        assert(rest == cs@.subrange(a as int, to as int));
        lemma_trailing_spaces_unique(rest, to - b);
        assert(rest.take(rest.len() - (to - b)) == cs@.subrange(a as int, b as int));
    }
    (a, b)
}

/// Whether `cs[from..to]` begins with `prefix`.
pub fn has_prefix(cs: &Vec<char>, from: usize, to: usize, prefix: &Vec<char>) -> (b: bool)
    requires
        from <= to <= cs.len(),
    ensures
        b == starts_with(cs@.subrange(from as int, to as int), prefix@),
{
    if prefix.len() > to - from {
        return false;
    }
    let mut i: usize = 0;
    while i < prefix.len()
        invariant
            from <= to <= cs.len(),
            i <= prefix.len() <= to - from,
            forall|j: int| 0 <= j < i ==> cs@[from + j] == prefix@[j],
        decreases prefix.len() - i,
    {
        if cs[from + i] != prefix[i] {
            proof {
                let s = cs@.subrange(from as int, to as int);
                assert(s.take(prefix.len() as int)[i as int] != prefix@[i as int]);
            }
            return false;
        }
        i = i + 1;
    }
    assert(cs@.subrange(from as int, to as int).take(prefix.len() as int) == prefix@);
    true
}

/// The lines of `s`, each as a string of its own.
pub fn split_lines(s: &str) -> (out: Vec<String>)
    ensures
        texts_of(out@) == lines(s@),
{
    let cs = chars_of(s);
    let n = cs.len();
    let mut out: Vec<String> = Vec::new();
    let mut p: usize = 0;
    assert(cs@.skip(0) == cs@);
    assert(texts_of(out@) + lines(cs@.skip(0)) == lines(cs@));
    while p < n
        invariant
            n == cs.len(),
            p <= n,
            texts_of(out@) + lines(cs@.skip(p as int)) == lines(cs@),
        decreases n - p,
    {
        let ghost rest = cs@.skip(p as int);
        let ghost done = texts_of(out@);
        assert(rest == cs@.subrange(p as int, n as int));
        let e = find_char(&cs, p, n, '\n');
        let stop = if e < n && e > p && cs[e - 1] == '\r' {
            e - 1
        } else {
            e
        };
        let line = string_of(&cs, p, stop);
        proof {
            let raw = if e < n {
                rest.take(e - p)
            } else {
                rest
            };
            assert(raw == cs@.subrange(p as int, e as int));
            assert(line@ == if e < n {
                strip_cr(raw)
            } else {
                raw
            });
            if e < n {
                assert(rest.skip(e - p + 1) == cs@.skip(e + 1));
            } else {
                assert(lines(cs@.skip(n as int)) == Seq::<Seq<char>>::empty());
            }
        }
        out.push(line);
        p = if e < n {
            e + 1
        } else {
            n
        };
        proof {
            assert(texts_of(out@) == done + seq![line@]);
            assert(lines(rest) == seq![line@] + lines(cs@.skip(p as int)));
            assert(texts_of(out@) + lines(cs@.skip(p as int)) == done + lines(rest));
        }
    }
    assert(lines(cs@.skip(n as int)) == Seq::<Seq<char>>::empty());
    assert(texts_of(out@) + Seq::<Seq<char>>::empty() == texts_of(out@));
    out
}

/// The pieces into which `sep` cuts `s`, each without the white space
/// around it.
pub fn split_trimmed(s: &str, sep: char) -> (out: Vec<String>)
    ensures
        texts_of(out@) == split(s@, sep).map_values(|piece: Seq<char>| trim(piece)),
{
    let cs = chars_of(s);
    let n = cs.len();
    let mut out: Vec<String> = Vec::new();
    let mut p: usize = 0;
    let ghost trimmed = |piece: Seq<char>| trim(piece);
    assert(cs@.skip(0) == cs@);
    assert(texts_of(out@) + split(cs@.skip(0), sep).map_values(trimmed) == split(
        cs@,
        sep,
    ).map_values(trimmed));
    loop
        invariant_except_break
            texts_of(out@) + split(cs@.skip(p as int), sep).map_values(trimmed) == split(
                cs@,
                sep,
            ).map_values(trimmed),
        invariant
            n == cs.len(),
            p <= n,
            trimmed == |piece: Seq<char>| trim(piece),
        ensures
            texts_of(out@) == split(cs@, sep).map_values(trimmed),
        decreases n - p,
    {
        let ghost rest = cs@.skip(p as int);
        let ghost done = texts_of(out@);
        assert(rest == cs@.subrange(p as int, n as int));
        let e = find_char(&cs, p, n, sep);
        let bounds = trim_bounds(&cs, p, e);
        let piece = string_of(&cs, bounds.0, bounds.1);
        out.push(piece);
        proof {
            let raw = if e < n {
                rest.take(e - p)
            } else {
                rest
            };
            assert(raw == cs@.subrange(p as int, e as int));
            assert(piece@ == trim(raw));
            assert(texts_of(out@) == done + seq![piece@]);
        }
        if e < n {
            proof {
                let tail = split(rest.skip(e - p + 1), sep);
                assert(rest.skip(e - p + 1) == cs@.skip(e + 1));
                assert(split(rest, sep) == seq![rest.take(e - p)] + tail);
                assert(split(rest, sep).map_values(trimmed) == seq![piece@] + tail.map_values(
                    trimmed,
                ));
                assert(texts_of(out@) + tail.map_values(trimmed) == done + split(
                    rest,
                    sep,
                ).map_values(trimmed));
            }
            p = e + 1;
        } else {
            proof {
                assert(split(rest, sep) == seq![rest]);
                assert(split(rest, sep).map_values(trimmed) == seq![piece@]);
                assert(done + seq![piece@] == split(cs@, sep).map_values(trimmed));
            }
            break ;
        }
    }
    out
}

} // verus!
