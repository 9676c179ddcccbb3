//! Cutting, comparing and trimming texts.

use vstd::prelude::*;
use vstd::std_specs::iter::IteratorSpec;
use vstd::string::*;

verus! {

broadcast use vstd::string::group_string_axioms;

/// The index of the first `c` in `s`, if there is one.
pub open spec fn position(s: Seq<char>, c: char) -> Option<int>
    decreases s.len(),
{
    if s.len() == 0 {
        None
    } else if s[0] == c {
        Some(0)
    } else {
        match position(s.drop_first(), c) {
            Some(i) => Some(i + 1),
            None => None,
        }
    }
}

/// What stands before the first `c` in `s` and what stands behind it, if
/// there is a `c`.
pub open spec fn split_once(s: Seq<char>, c: char) -> Option<(Seq<char>, Seq<char>)> {
    match position(s, c) {
        Some(i) => Some((s.subrange(0, i), s.subrange(i + 1, s.len() as int))),
        None => None,
    }
}

/// `position` finds a `c`, and none stands before it; it finds none only
/// where there is none.
pub proof fn lemma_position(s: Seq<char>, c: char)
    ensures
        match position(s, c) {
            Some(i) => 0 <= i < s.len() && s[i] == c && forall|j: int| 0 <= j < i ==> s[j] != c,
            None => forall|j: int| 0 <= j < s.len() ==> s[j] != c,
        },
    decreases s.len(),
{
    if s.len() == 0 {
    } else if s[0] == c {
    } else {
        lemma_position(s.drop_first(), c);
        match position(s.drop_first(), c) {
            Some(i) => {
                assert forall|j: int| 0 <= j < i + 1 implies s[j] != c by {
                    if j > 0 {
                        assert(s.drop_first()[j - 1] == s[j]);
                    }
                }
            },
            None => {
                assert forall|j: int| 0 <= j < s.len() implies s[j] != c by {
                    if j > 0 {
                        assert(s.drop_first()[j - 1] == s[j]);
                    }
                }
            },
        }
    }
}

/// The first `c` of a text is where a `c` stands with none before it.
pub proof fn lemma_position_is(s: Seq<char>, c: char, i: int)
    requires
        0 <= i < s.len(),
        s[i] == c,
        forall|j: int| 0 <= j < i ==> s[j] != c,
    ensures
        position(s, c) == Some(i),
{
    lemma_position(s, c);
}

/// A text without `c` has no first `c`.
pub proof fn lemma_position_none(s: Seq<char>, c: char)
    requires
        forall|j: int| 0 <= j < s.len() ==> s[j] != c,
    ensures
        position(s, c) is None,
{
    lemma_position(s, c);
}

/// The index of the first `c` in `s`, counted in characters.
pub fn find_char(s: &str, c: char) -> (r: Option<usize>)
    ensures
        match r {
            Some(i) => position(s@, c) == Some(i as int),
            None => position(s@, c) is None,
        },
{
    let len = s.unicode_len();
    let mut it = s.chars();
    let mut i: usize = 0;
    loop
        invariant
            len == s@.len(),
            i + it.remaining().len() == s@.len(),
            it.remaining() == s@.subrange(i as int, s@.len() as int),
            forall|j: int| 0 <= j < i ==> s@[j] != c,
        decreases s@.len() - i,
    {
        match it.next() {
            None => {
                proof {
                    lemma_position_none(s@, c);
                }
                return None;
            },
            Some(found) => {
                assert(found == s@[i as int]);
                if found == c {
                    proof {
                        lemma_position_is(s@, c, i as int);
                    }
                    return Some(i);
                }
                proof {
                    assert(s@.subrange(i as int, s@.len() as int).drop_first() =~= s@.subrange(
                        i + 1,
                        s@.len() as int,
                    ));
                }
                i = i + 1;
            },
        }
    }
}

/// Whether two texts hold the same characters.
pub fn str_eq(a: &str, b: &str) -> (r: bool)
    ensures
        r == (a@ == b@),
{
    let mut left = a.chars();
    let mut right = b.chars();
    let ghost mut done: int = 0;
    loop
        invariant
            0 <= done <= a@.len(),
            done <= b@.len(),
            left.remaining() == a@.subrange(done, a@.len() as int),
            right.remaining() == b@.subrange(done, b@.len() as int),
            a@.subrange(0, done) == b@.subrange(0, done),
        decreases a@.len() - done,
    {
        let x = left.next();
        let y = right.next();
        match (x, y) {
            (None, None) => {
                proof {
                    assert(a@ =~= a@.subrange(0, done));
                    assert(b@ =~= b@.subrange(0, done));
                }
                return true;
            },
            (Some(p), Some(q)) => {
                assert(p == a@[done]);
                assert(q == b@[done]);
                if p != q {
                    return false;
                }
                proof {
                    assert(a@.subrange(done, a@.len() as int).drop_first() =~= a@.subrange(
                        done + 1,
                        a@.len() as int,
                    ));
                    assert(b@.subrange(done, b@.len() as int).drop_first() =~= b@.subrange(
                        done + 1,
                        b@.len() as int,
                    ));
                    assert(a@.subrange(0, done + 1) =~= a@.subrange(0, done).push(p));
                    assert(b@.subrange(0, done + 1) =~= b@.subrange(0, done).push(q));
                    done = done + 1;
                }
            },
            _ => {
                return false;
            },
        }
    }
}

/// Whether `c` is white space: one of the characters that Unicode gives
/// the property White_Space.
pub open spec fn is_white_space(c: char) -> bool {
    let code = c as u32;
    ||| 0x09 <= code <= 0x0d
    ||| code == 0x20
    ||| code == 0x85
    ||| code == 0xa0
    ||| code == 0x1680
    ||| 0x2000 <= code <= 0x200a
    ||| code == 0x2028
    ||| code == 0x2029
    ||| code == 0x202f
    ||| code == 0x205f
    ||| code == 0x3000
}

/// The text without the white space at its end.
pub open spec fn trimmed_end(s: Seq<char>) -> Seq<char>
    decreases s.len(),
{
    if s.len() > 0 && is_white_space(s.last()) {
        trimmed_end(s.drop_last())
    } else {
        s
    }
}

/// What is left of a text without the white space at its end is a part of
/// the text that begins where the text begins, and it ends with no white
/// space; all that is cut off is white space.
pub proof fn lemma_trimmed_end(s: Seq<char>)
    ensures
        trimmed_end(s).len() <= s.len(),
        trimmed_end(s) == s.take(trimmed_end(s).len() as int),
        trimmed_end(s).len() > 0 ==> !is_white_space(trimmed_end(s).last()),
        forall|i: int| trimmed_end(s).len() <= i < s.len() ==> is_white_space(#[trigger] s[i]),
    decreases s.len(),
{
    if s.len() > 0 && is_white_space(s.last()) {
        lemma_trimmed_end(s.drop_last());
        let kept = trimmed_end(s).len() as int;
        assert(s.drop_last().take(kept) =~= s.take(kept));
        assert forall|i: int| kept <= i < s.len() implies is_white_space(#[trigger] s[i]) by {
            if i < s.len() - 1 {
                assert(s.drop_last()[i] == s[i]);
            }
        }
    } else {
        assert(s.take(s.len() as int) =~= s);
    }
}

/// Whether `c` is white space.
pub fn char_is_white_space(c: char) -> (r: bool)
    ensures
        r == is_white_space(c),
{
    let code = c as u32;
    (0x09 <= code && code <= 0x0d) || code == 0x20 || code == 0x85 || code == 0xa0 || code
        == 0x1680 || (0x2000 <= code && code <= 0x200a) || code == 0x2028 || code == 0x2029
        || code == 0x202f || code == 0x205f || code == 0x3000
}

/// The text without the white space at its end.
pub fn trim_end<'a>(s: &'a str) -> (r: &'a str)
    ensures
        r@ == trimmed_end(s@),
{
    let len = s.unicode_len();
    let mut it = s.chars();
    let mut i: usize = 0;
    let mut kept: usize = 0;
    proof {
        assert(s@.take(0) =~= Seq::<char>::empty());
    }
    loop
        invariant
            len == s@.len(),
            i <= len,
            kept <= i,
            it.remaining() == s@.subrange(i as int, s@.len() as int),
            trimmed_end(s@.take(i as int)) == s@.take(kept as int),
        decreases len - i,
    {
        match it.next() {
            None => {
                proof {
                    assert(s@.take(i as int) =~= s@);
                }
                return s.substring_char(0, kept);
            },
            Some(c) => {
                proof {
                    assert(c == s@[i as int]);
                    assert(s@.take(i + 1).drop_last() =~= s@.take(i as int));
                    assert(s@.take(i + 1).last() == c);
                    assert(s@.subrange(i as int, s@.len() as int).drop_first() =~= s@.subrange(
                        i + 1,
                        s@.len() as int,
                    ));
                }
                i = i + 1;
                if !char_is_white_space(c) {
                    kept = i;
                }
            },
        }
    }
}

/// Cuts `s` at its first `c`.
pub fn split_once_at<'a>(s: &'a str, c: char) -> (r: Option<(&'a str, &'a str)>)
    ensures
        match r {
            Some((head, tail)) => split_once(s@, c) == Some((head@, tail@)),
            None => split_once(s@, c) is None,
        },
{
    match find_char(s, c) {
        None => None,
        Some(i) => {
            proof {
                lemma_position(s@, c);
            }
            let len = s.unicode_len();
            Some((s.substring_char(0, i), s.substring_char(i + 1, len)))
        },
    }
}

} // verus!
