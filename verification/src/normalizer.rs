//! The line normalizer: one line of source in, its code out, without the
//! comment and with every run of white space collapsed to one space.

use crate::text::{blank, chars_of, is_blank, is_space, is_whitespace, slice, text_of};
use vstd::prelude::*;

verus! {

/// Whether a comment opens at index `k` of `s`: two slashes stand there.
pub open spec fn opens_comment(s: Seq<char>, k: int) -> bool {
    0 <= k && k + 1 < s.len() && s[k] == '/' && s[k + 1] == '/'
}

/// The index at which the comment of `s` opens, or the length of `s` when it
/// has no comment.
pub open spec fn comment_start(s: Seq<char>) -> int
    decreases s.len(),
{
    if s.len() < 2 {
        s.len() as int
    } else if s[0] == '/' && s[1] == '/' {
        0
    } else {
        1 + comment_start(s.drop_first())
    }
}

/// The code of a line: what stands before its comment.
pub open spec fn code_of(line: Seq<char>) -> Seq<char> {
    line.take(comment_start(line))
}

/// `s` with every run of white space replaced by a single space. White space
/// at the start or the end of `s` is a run like any other.
pub open spec fn collapse(s: Seq<char>) -> Seq<char>
    decreases s.len(),
{
    if s.len() == 0 {
        Seq::empty()
    } else if !is_space(s.last()) {
        collapse(s.drop_last()).push(s.last())
    } else if s.len() >= 2 && is_space(s[s.len() - 2]) {
        collapse(s.drop_last())
    } else {
        collapse(s.drop_last()).push(' ')
    }
}

/// What a line of source comes to: nothing when its code is blank, else its
/// code with the white space collapsed.
pub open spec fn normalize(line: Seq<char>) -> Option<Seq<char>> {
    let code = code_of(line);
    if is_blank(code) {
        None
    } else {
        Some(collapse(code))
    }
}

/// `comment_start` is the one index before which no comment opens and at
/// which one does, or after which the text is too short for one.
pub proof fn lemma_comment_start(s: Seq<char>, k: int)
    requires
        0 <= k <= s.len(),
        forall|j: int| 0 <= j < k ==> !opens_comment(s, j),
        opens_comment(s, k) || k == s.len(),
    ensures
        comment_start(s) == k,
    decreases s.len(),
{
    if s.len() >= 2 && !(s[0] == '/' && s[1] == '/') {
        let rest = s.drop_first();
        assert(!opens_comment(s, 0));
        assert forall|j: int| 0 <= j < k - 1 implies !opens_comment(rest, j) by {
            assert(!opens_comment(s, j + 1));
        }
        lemma_comment_start(rest, k - 1);
    } else if s.len() >= 2 {
        assert(opens_comment(s, 0));
    } else if s.len() == 1 {
        assert(!opens_comment(s, 0));
    }
}

/// A normalized line is never blank, its only white space is the space, and
/// no two spaces in it are neighbours.
pub proof fn lemma_normalized_shape(line: Seq<char>)
    requires
        normalize(line) is Some,
    ensures
        !is_blank(normalize(line)->0),
        forall|i: int|
            0 <= i < normalize(line)->0.len() && is_space(#[trigger] normalize(line)->0[i])
                ==> normalize(line)->0[i] == ' ',
        forall|i: int|
            0 < i < normalize(line)->0.len() ==> !(normalize(line)->0[i - 1] == ' '
                && #[trigger] normalize(line)->0[i] == ' '),
{
    let code = code_of(line);
    lemma_collapse_shape(code);
    let k = choose|k: int| 0 <= k < code.len() && !is_space(code[k]);
    lemma_collapse_keeps(code, k);
}

/// The shape of a collapsed text: it ends in white space exactly when the
/// text does, its only white space is the space, and no two spaces in it are
/// neighbours.
pub proof fn lemma_collapse_shape(s: Seq<char>)
    ensures
        collapse(s).len() <= s.len(),
        s.len() > 0 ==> collapse(s).len() > 0 && (is_space(collapse(s).last()) <==> is_space(
            s.last(),
        )),
        forall|i: int|
            0 <= i < collapse(s).len() && is_space(#[trigger] collapse(s)[i]) ==> collapse(s)[i]
                == ' ',
        forall|i: int|
            0 < i < collapse(s).len() ==> !(collapse(s)[i - 1] == ' ' && #[trigger] collapse(s)[i]
                == ' '),
    decreases s.len(),
{
    if s.len() > 0 {
        lemma_collapse_shape(s.drop_last());
        assert(is_space(' '));
    }
}

/// Collapsing loses no character that is not white space.
pub proof fn lemma_collapse_keeps(s: Seq<char>, k: int)
    requires
        0 <= k < s.len(),
        !is_space(s[k]),
    ensures
        exists|i: int| 0 <= i < collapse(s).len() && collapse(s)[i] == s[k],
    decreases s.len(),
{
    if k == s.len() - 1 {
        assert(collapse(s)[collapse(s).len() - 1] == s[k]);
    } else {
        lemma_collapse_keeps(s.drop_last(), k);
        let i = choose|i: int|
            0 <= i < collapse(s.drop_last()).len() && collapse(s.drop_last())[i] == s.drop_last()[k];
        assert(collapse(s)[i] == s[k]);
    }
}

/// What the line `v` comes to.
pub fn normalize_chars(v: &Vec<char>) -> (result: Option<Vec<char>>)
    ensures
        match normalize(v@) {
            Some(text) => result matches Some(r) && r@ == text,
            None => result is None,
        },
{
    let n: usize = v.len();
    let mut end: usize = 0;
    while end < n && !(end + 1 < n && v[end] == '/' && v[end + 1] == '/')
        invariant
            end <= n,
            n == v.len(),
            forall|j: int| 0 <= j < end ==> !opens_comment(v@, j),
        decreases n - end,
    {
        end += 1;
    }
    proof {
        lemma_comment_start(v@, end as int);
    }
    let code: Vec<char> = slice(v, 0, end);
    if blank(&code) {
        return None;
    }
    let mut out: Vec<char> = Vec::new();
    let mut was_whitespace: bool = false;
    let mut i: usize = 0;
    while i < code.len()
        invariant
            i <= code.len(),
            out@ == collapse(code@.take(i as int)),
            was_whitespace == (i > 0 && is_space(code@[i - 1])),
        decreases code.len() - i,
    {
        let c: char = code[i];
        assert(code@.take(i as int + 1).drop_last() =~= code@.take(i as int));
        if is_whitespace(c) {
            if !was_whitespace {
                out.push(' ');
                was_whitespace = true;
            }
        } else {
            out.push(c);
            was_whitespace = false;
        }
        i += 1;
    }
    assert(code@.take(code.len() as int) =~= code@);
    Some(out)
}

/// Normalizes one line of source. The result is `None` when the line holds
/// no code: when what stands before its `//` comment is empty or all white
/// space. Otherwise it is that code with every run of white space collapsed
/// to a single space; white space at the start and the end is collapsed, not
/// removed.
pub fn format_code(line: &str) -> (result: Option<String>)
    ensures
        match normalize(line@) {
            Some(text) => result matches Some(r) && r@ == text,
            None => result is None,
        },
{
    let chars: Vec<char> = chars_of(line);
    match normalize_chars(&chars) {
        Some(out) => Some(text_of(&out)),
        None => None,
    }
}

} // verus!
