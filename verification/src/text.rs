//! Text as sequences of characters: white space, trimming, searching and
//! splitting, and the conversions between `str`, `String` and `Vec<char>`.
//!
//! Every contract here is stated over `Seq<char>`, the view that `str` and
//! `String` share with `Vec<char>`.

use vstd::prelude::*;

verus! {

/// `String::push` appends one character to the end of the string and changes
/// nothing else. This is taken from the standard library's documentation and
/// is not proved here.
pub assume_specification[ String::push ](s: &mut String, c: char)
    ensures
        final(s)@ == old(s)@.push(c),
;

/// The characters with the Unicode property `White_Space`.
pub open spec fn is_space(c: char) -> bool {
    let n = c as u32;
    ||| 0x09 <= n <= 0x0D
    ||| n == 0x20
    ||| n == 0x85
    ||| n == 0xA0
    ||| n == 0x1680
    ||| 0x2000 <= n <= 0x200A
    ||| n == 0x2028
    ||| n == 0x2029
    ||| n == 0x202F
    ||| n == 0x205F
    ||| n == 0x3000
}

/// A text is blank when it holds nothing but white space.
pub open spec fn is_blank(s: Seq<char>) -> bool {
    forall|i: int| 0 <= i < s.len() ==> is_space(#[trigger] s[i])
}

/// `s` without its leading white space.
pub open spec fn trim_start(s: Seq<char>) -> Seq<char>
    decreases s.len(),
{
    if s.len() > 0 && is_space(s.first()) {
        trim_start(s.drop_first())
    } else {
        s
    }
}

/// `s` without its trailing white space.
pub open spec fn trim_end(s: Seq<char>) -> Seq<char>
    decreases s.len(),
{
    if s.len() > 0 && is_space(s.last()) {
        trim_end(s.drop_last())
    } else {
        s
    }
}

/// `s` without its leading and trailing white space.
pub open spec fn trim(s: Seq<char>) -> Seq<char> {
    trim_end(trim_start(s))
}

/// The index of the first `c` in `s`, or the length of `s` when `c` does not
/// occur in it.
pub open spec fn find(s: Seq<char>, c: char) -> int
    decreases s.len(),
{
    if s.len() == 0 {
        0
    } else if s.first() == c {
        0
    } else {
        1 + find(s.drop_first(), c)
    }
}

/// `s` cut at its first `c`: what stands before it and what stands after it,
/// or `None` when `c` does not occur.
pub open spec fn split_once(s: Seq<char>, c: char) -> Option<(Seq<char>, Seq<char>)> {
    let k = find(s, c);
    if k < s.len() {
        Some((s.take(k), s.skip(k + 1)))
    } else {
        None
    }
}

/// The lower-case form of an ASCII capital; every other character is kept.
pub open spec fn lower(c: char) -> char {
    if 'A' <= c <= 'Z' {
        ((c as u8) + 32) as char
    } else {
        c
    }
}

/// `s` with each of its ASCII capitals in lower case.
pub open spec fn lowercase(s: Seq<char>) -> Seq<char> {
    Seq::new(s.len(), |i: int| lower(s[i]))
}

/// The pieces into which the line feeds cut `s`. There is always at least
/// one: the last piece is what follows the last line feed, and is empty when
/// nothing does.
pub open spec fn pieces(s: Seq<char>) -> Seq<Seq<char>>
    decreases s.len(),
{
    if s.len() == 0 {
        seq![Seq::empty()]
    } else {
        let before = pieces(s.drop_last());
        if s.last() == '\n' {
            before.push(Seq::empty())
        } else {
            before.drop_last().push(before.last().push(s.last()))
        }
    }
}

/// `s` without the carriage return at its end, if it has one.
pub open spec fn strip_cr(s: Seq<char>) -> Seq<char> {
    if s.len() > 0 && s.last() == '\r' {
        s.drop_last()
    } else {
        s
    }
}

/// The lines of `s`. A line ends at a line feed, or at a carriage return
/// directly followed by a line feed; neither belongs to the line. What
/// follows the last line feed is a line too unless it is empty, so a final
/// line ending is optional, and a carriage return that no line feed follows
/// stays in its line.
pub open spec fn lines_of(s: Seq<char>) -> Seq<Seq<char>> {
    let cut = pieces(s);
    let ended = Seq::new((cut.len() - 1) as nat, |i: int| strip_cr(cut[i]));
    if cut.last().len() == 0 {
        ended
    } else {
        ended.push(cut.last())
    }
}

/// The texts that a list of character vectors holds.
pub open spec fn views(v: Seq<Vec<char>>) -> Seq<Seq<char>> {
    Seq::new(v.len(), |i: int| v[i]@)
}

/// `find` is the one index up to which `c` does not occur and at which it
/// does, or the text ends.
pub proof fn lemma_find(s: Seq<char>, c: char, k: int)
    requires
        0 <= k <= s.len(),
        forall|j: int| 0 <= j < k ==> s[j] != c,
        k < s.len() ==> s[k] == c,
    ensures
        find(s, c) == k,
    decreases s.len(),
{
    if s.len() > 0 && s.first() != c {
        let rest = s.drop_first();
        assert forall|j: int| 0 <= j < k - 1 implies rest[j] != c by {
            assert(rest[j] == s[j + 1]);
        }
        lemma_find(rest, c, k - 1);
    }
}

/// Whether `c` is white space.
pub fn is_whitespace(c: char) -> (result: bool)
    ensures
        result == is_space(c),
{
    let n: u32 = c as u32;
    (0x09 <= n && n <= 0x0D) || n == 0x20 || n == 0x85 || n == 0xA0 || n == 0x1680 || (0x2000 <= n
        && n <= 0x200A) || n == 0x2028 || n == 0x2029 || n == 0x202F || n == 0x205F || n == 0x3000
}

/// The characters of `s`, in order.
pub fn chars_of(s: &str) -> (result: Vec<char>)
    ensures
        result@ == s@,
{
    let mut result: Vec<char> = Vec::new();
    for c in it: s.chars()
        invariant
            result@ == it.seq().take(it.index() as int),
    {
        result.push(c);
    }
    result
}

/// The string made of the characters of `v`, in order.
pub fn text_of(v: &Vec<char>) -> (result: String)
    ensures
        result@ == v@,
{
    let mut result = String::new();
    let mut i: usize = 0;
    while i < v.len()
        invariant
            i <= v.len(),
            result@ == v@.take(i as int),
        decreases v.len() - i,
    {
        result.push(v[i]);
        i += 1;
    }
    result
}

/// The characters of `v` from index `from` up to, but without, index `to`.
pub(crate) fn slice(v: &Vec<char>, from: usize, to: usize) -> (result: Vec<char>)
    requires
        from <= to <= v.len(),
    ensures
        result@ == v@.subrange(from as int, to as int),
{
    let mut result: Vec<char> = Vec::new();
    let mut i: usize = from;
    while i < to
        invariant
            from <= i <= to <= v.len(),
            result@ == v@.subrange(from as int, i as int),
        decreases to - i,
    {
        result.push(v[i]);
        i += 1;
    }
    result
}

/// Whether `v` holds nothing but white space.
pub fn blank(v: &Vec<char>) -> (result: bool)
    ensures
        result == is_blank(v@),
{
    let mut i: usize = 0;
    while i < v.len()
        invariant
            i <= v.len(),
            forall|j: int| 0 <= j < i ==> is_space(#[trigger] v@[j]),
        decreases v.len() - i,
    {
        if !is_whitespace(v[i]) {
            return false;
        }
        i += 1;
    }
    true
}

/// `v` without its leading and trailing white space.
pub fn trimmed(v: &Vec<char>) -> (result: Vec<char>)
    ensures
        result@ == trim(v@),
{
    let mut from: usize = 0;
    assert(v@.skip(0) =~= v@);
    while from < v.len() && is_whitespace(v[from])
        invariant
            from <= v.len(),
            trim_start(v@) == trim_start(v@.skip(from as int)),
        decreases v.len() - from,
    {
        assert(v@.skip(from as int).drop_first() =~= v@.skip(from as int + 1));
        from += 1;
    }
    let mut to: usize = v.len();
    assert(v@.skip(from as int) =~= v@.subrange(from as int, to as int));
    while to > from && is_whitespace(v[to - 1])
        invariant
            from <= to <= v.len(),
            trim(v@) == trim_end(v@.subrange(from as int, to as int)),
        decreases to - from,
    {
        assert(v@.subrange(from as int, to as int).drop_last() =~= v@.subrange(
            from as int,
            to as int - 1,
        ));
        to -= 1;
    }
    slice(v, from, to)
}

/// The index of the first `c` in `v`, or the length of `v` when there is none.
pub fn position(v: &Vec<char>, c: char) -> (result: usize)
    ensures
        result == find(v@, c),
{
    let mut i: usize = 0;
    while i < v.len() && v[i] != c
        invariant
            i <= v.len(),
            forall|j: int| 0 <= j < i ==> v@[j] != c,
        decreases v.len() - i,
    {
        i += 1;
    }
    proof {
        lemma_find(v@, c, i as int);
    }
    i
}

/// `v` cut at its first `c`.
pub fn cut(v: &Vec<char>, c: char) -> (result: Option<(Vec<char>, Vec<char>)>)
    ensures
        match split_once(v@, c) {
            Some((before, after)) => result matches Some(pair) && pair.0@ == before && pair.1@
                == after,
            None => result is None,
        },
{
    let k: usize = position(v, c);
    if k < v.len() {
        Some((slice(v, 0, k), slice(v, k + 1, v.len())))
    } else {
        None
    }
}

/// `v` with each of its ASCII capitals in lower case.
pub fn lowercased(v: &Vec<char>) -> (result: Vec<char>)
    ensures
        result@ == lowercase(v@),
{
    let mut result: Vec<char> = Vec::new();
    let mut i: usize = 0;
    while i < v.len()
        invariant
            i <= v.len(),
            result@ == lowercase(v@.take(i as int)),
        decreases v.len() - i,
    {
        let c: char = v[i];
        let low: char = if 'A' <= c && c <= 'Z' {
            let b: u8 = c as u8;
            (b + 32) as char
        } else {
            c
        };
        result.push(low);
        assert(result@ =~= lowercase(v@.take(i as int + 1)));
        i += 1;
    }
    assert(v@.take(v.len() as int) =~= v@);
    result
}

/// The lines of `v`.
pub fn split_lines(v: &Vec<char>) -> (result: Vec<Vec<char>>)
    ensures
        views(result@) == lines_of(v@),
{
    let mut lines: Vec<Vec<char>> = Vec::new();
    let mut current: Vec<char> = Vec::new();
    let mut i: usize = 0;
    while i < v.len()
        invariant
            i <= v.len(),
            pieces(v@.take(i as int)).len() == lines.len() + 1,
            forall|j: int|
                0 <= j < lines.len() ==> (#[trigger] lines@[j])@ == strip_cr(
                    pieces(v@.take(i as int))[j],
                ),
            current@ == pieces(v@.take(i as int)).last(),
        decreases v.len() - i,
    {
        let c: char = v[i];
        assert(v@.take(i as int + 1).drop_last() =~= v@.take(i as int));
        if c == '\n' {
            let n: usize = current.len();
            if n > 0 && current[n - 1] == '\r' {
                current.pop();
            }
            lines.push(current);
            current = Vec::new();
        } else {
            current.push(c);
        }
        i += 1;
    }
    assert(v@.take(v.len() as int) =~= v@);
    if current.len() > 0 {
        lines.push(current);
    }
    assert(views(lines@) =~= lines_of(v@));
    lines
}

} // verus!
