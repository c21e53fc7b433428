use std::str::Chars;
use vstd::prelude::*;
use vstd::std_specs::iter::IteratorSpec;

verus! {

/// The separator between two segments of a path.
pub const SEPARATOR: char = '/';

/// The number of characters at the start of `s` that come before the first
/// separator (all of `s` when it holds none).
pub open spec fn segment_len(s: Seq<char>) -> nat
    decreases s.len(),
{
    if s.len() == 0 || s[0] == SEPARATOR {
        0
    } else {
        1 + segment_len(s.drop_first())
    }
}

/// The first segment of `s`: its text up to, not including, the first separator.
pub open spec fn segment(s: Seq<char>) -> Seq<char> {
    s.take(segment_len(s) as int)
}

/// The number of separators in `s`.
pub open spec fn separator_count(s: Seq<char>) -> nat
    decreases s.len(),
{
    if s.len() == 0 {
        0
    } else {
        (if s[0] == SEPARATOR { 1nat } else { 0nat }) + separator_count(s.drop_first())
    }
}

/// The number of segments of a path: one more than its separators.
pub open spec fn segment_count(s: Seq<char>) -> nat {
    separator_count(s) + 1
}

/// `segment_len` stops at the first separator, or at the end.
pub proof fn lemma_segment_len(s: Seq<char>)
    ensures
        segment_len(s) <= s.len(),
        forall|i: int| 0 <= i < segment_len(s) ==> s[i] != SEPARATOR,
        segment_len(s) < s.len() ==> s[segment_len(s) as int] == SEPARATOR,
    decreases s.len(),
{
    if s.len() > 0 && s[0] != SEPARATOR {
        lemma_segment_len(s.drop_first());
        assert forall|i: int| 0 <= i < segment_len(s) implies s[i] != SEPARATOR by {
            if i > 0 {
                assert(s[i] == s.drop_first()[i - 1]);
            }
        }
    }
}

/// A prefix free of separators may be skipped without changing the count.
pub proof fn lemma_separator_count_skip(s: Seq<char>, n: int)
    requires
        0 <= n <= s.len(),
        forall|i: int| 0 <= i < n ==> s[i] != SEPARATOR,
    ensures
        separator_count(s.skip(n)) == separator_count(s),
    decreases n,
{
    if n > 0 {
        assert forall|i: int| 0 <= i < n - 1 implies s.drop_first()[i] != SEPARATOR by {
            assert(s.drop_first()[i] == s[i + 1]);
        }
        lemma_separator_count_skip(s.drop_first(), n - 1);
        assert(s.drop_first().skip(n - 1) == s.skip(n));
    } else {
        assert(s.skip(0) == s);
    }
}

/// Relies on `Chars::as_str`: the text that the iterator has not yet handed out.
#[verifier::external_body]
pub(crate) fn unread<'a>(chars: &Chars<'a>) -> (r: &'a str)
    ensures
        r@ == chars.remaining(),
{
    chars.as_str()
}

/// The next character that `chars` would hand out, without taking it.
pub(crate) fn peek(chars: &Chars) -> (r: Option<char>)
    ensures
        r == (if chars.remaining().len() > 0 {
            Some(chars.remaining()[0])
        } else {
            None
        }),
{
    let rest = unread(chars);
    let mut ahead = rest.chars();
    ahead.next()
}

/// Whether two strings hold the same characters.
pub fn same_text(a: &str, b: &str) -> (r: bool)
    ensures
        r == (a@ == b@),
{
    let mut x: Chars = a.chars();
    let mut y: Chars = b.chars();
    let ghost mut i: int = 0;
    loop
        invariant
            0 <= i <= a@.len(),
            i <= b@.len(),
            x.remaining() == a@.skip(i),
            y.remaining() == b@.skip(i),
            a@.take(i) == b@.take(i),
        decreases a@.len() - i,
    {
        let c = x.next();
        let d = y.next();
        match (c, d) {
            (None, None) => {
                assert(a@ == a@.take(i));
                assert(b@ == b@.take(i));
                return true;
            },
            (Some(p), Some(q)) => {
                if p != q {
                    assert(a@[i] != b@[i]);
                    return false;
                }
                assert(a@.take(i + 1) == a@.take(i).push(p));
                assert(b@.take(i + 1) == b@.take(i).push(q));
                proof {
                    i = i + 1;
                }
            },
            _ => {
                assert(a@.len() != b@.len());
                return false;
            },
        }
    }
}

/// Takes the first segment from `chars` and returns it; `chars` is left at the
/// separator that ended it, or at the end of the text.
pub fn take_segment(chars: &mut Chars) -> (r: String)
    ensures
        r@ == segment((*old(chars)).remaining()),
        (*final(chars)).remaining() == (*old(chars)).remaining().skip(
            segment_len((*old(chars)).remaining()) as int,
        ),
{
    let mut cur = "".chars();
    std::mem::swap(chars, &mut cur);
    let rest = unread(&cur);
    let ghost start = rest@;
    proof {
        lemma_segment_len(start);
    }
    let total = rest.unicode_len();
    let mut n: usize = 0;
    assert(start.skip(0) == start);
    loop
        invariant
            rest@ == start,
            total == start.len(),
            n <= segment_len(start),
            cur.remaining() == start.skip(n as int),
            segment_len(start) <= start.len(),
            forall|i: int| 0 <= i < segment_len(start) ==> start[i] != SEPARATOR,
            segment_len(start) < start.len() ==> start[segment_len(start) as int] == SEPARATOR,
        ensures
            n == segment_len(start),
            cur.remaining() == start.skip(n as int),
        decreases start.len() - n,
    {
        match peek(&cur) {
            Some(c) => {
                assert(c == start[n as int]);
                if c == SEPARATOR {
                    assert(n == segment_len(start));
                    break;
                }
                cur.next();
                assert(start.skip(n + 1) == start.skip(n as int).drop_first());
                n = n + 1;
            },
            None => {
                assert(start.skip(n as int).len() == 0);
                break;
            },
        }
    }
    std::mem::swap(chars, &mut cur);
    rest.substring_char(0, n).to_owned()
}

} // verus!
