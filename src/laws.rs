use vstd::prelude::*;

use crate::path::{match_result, scan, PARAMETER_MARKER};
use crate::text::{
    lemma_segment_len, lemma_separator_count_skip, segment, segment_count, segment_len,
    separator_count, SEPARATOR,
};

verus! {

/// `s` holds no parameter marker.
pub open spec fn is_literal(s: Seq<char>) -> bool {
    forall|i: int| 0 <= i < s.len() ==> s[i] != PARAMETER_MARKER
}

/// `s` holds no separator.
pub open spec fn within_segment(s: Seq<char>) -> bool {
    forall|i: int| 0 <= i < s.len() ==> s[i] != SEPARATOR
}

/// `s` is empty or starts a new segment.
pub open spec fn at_boundary(s: Seq<char>) -> bool {
    s.len() == 0 || s[0] == SEPARATOR
}

/// A match result with the capture `name => value` put before the captures of `r`,
/// which take its place where they use the same name.
pub open spec fn with_capture(name: Seq<char>, value: Seq<char>, r: Option<Map<Seq<char>, Seq<char>>>) -> Option<
    Map<Seq<char>, Seq<char>>,
> {
    match r {
        Some(m) => Some(map![name => value].union_prefer_right(m)),
        None => None,
    }
}

/// The captures made before a point of the scan are kept unless a later
/// capture uses the same name.
proof fn lemma_scan_acc(p: Seq<char>, c: Seq<char>, acc: Map<Seq<char>, Seq<char>>)
    ensures
        scan(p, c, acc) == (match scan(p, c, Map::empty()) {
            Some(m) => Some(acc.union_prefer_right(m)),
            None => None,
        }),
    decreases p.len() + c.len(),
{
    if p.len() == 0 {
        assert(acc.union_prefer_right(Map::empty()) =~= acc);
    } else if p[0] == PARAMETER_MARKER {
        let rest = p.drop_first();
        lemma_segment_len(rest);
        lemma_segment_len(c);
        let p2 = rest.skip(segment_len(rest) as int);
        let c2 = c.skip(segment_len(c) as int);
        let k = segment(rest);
        let v = segment(c);
        lemma_scan_acc(p2, c2, acc.insert(k, v));
        lemma_scan_acc(p2, c2, Map::empty().insert(k, v));
        lemma_scan_acc(p2, c2, Map::empty());
        if let Some(m) = scan(p2, c2, Map::empty()) {
            assert(acc.insert(k, v).union_prefer_right(m) =~= acc.union_prefer_right(
                Map::empty().insert(k, v).union_prefer_right(m),
            ));
        }
    } else if c.len() > 0 && p[0] == c[0] {
        lemma_scan_acc(p.drop_first(), c.drop_first(), acc);
        lemma_scan_acc(p.drop_first(), c.drop_first(), Map::empty());
    }
}

/// A literal prefix common to both sides is matched away.
proof fn lemma_scan_common_prefix(
    pre: Seq<char>,
    p: Seq<char>,
    c: Seq<char>,
    acc: Map<Seq<char>, Seq<char>>,
)
    requires
        is_literal(pre),
    ensures
        scan(pre + p, pre + c, acc) == scan(p, c, acc),
    decreases pre.len(),
{
    if pre.len() == 0 {
        assert(pre + p == p);
        assert(pre + c == c);
    } else {
        let tail = pre.drop_first();
        assert((pre + p)[0] == pre[0]);
        assert((pre + c)[0] == pre[0]);
        assert((pre + p).drop_first() == tail + p);
        assert((pre + c).drop_first() == tail + c);
        lemma_scan_common_prefix(tail, p, c, acc);
    }
}

/// The scan of a literal pattern succeeds, with nothing captured, exactly on
/// the pattern itself.
proof fn lemma_scan_literal(p: Seq<char>, c: Seq<char>, acc: Map<Seq<char>, Seq<char>>)
    requires
        is_literal(p),
    ensures
        scan(p, c, acc) == (if c == p {
            Some(acc)
        } else {
            None::<Map<Seq<char>, Seq<char>>>
        }),
    decreases p.len() + c.len(),
{
    if p.len() > 0 {
        assert(p[0] != PARAMETER_MARKER);
        if c.len() > 0 && p[0] == c[0] {
            assert(is_literal(p.drop_first())) by {
                assert forall|i: int| 0 <= i < p.drop_first().len() implies p.drop_first()[i]
                    != PARAMETER_MARKER by {
                    assert(p.drop_first()[i] == p[i + 1]);
                }
            }
            lemma_scan_literal(p.drop_first(), c.drop_first(), acc);
            if c.drop_first() == p.drop_first() {
                assert(c == seq![c[0]] + c.drop_first());
                assert(p == seq![p[0]] + p.drop_first());
            }
        } else if c.len() > 0 {
            assert(c[0] != p[0]);
            assert(c != p);
        } else {
            assert(c.len() != p.len());
        }
    } else if c.len() > 0 {
        assert(c != p);
    } else {
        assert(c =~= p);
    }
}

/// A segment made of `a`, closed by what starts `b`.
proof fn lemma_segment_of_concat(a: Seq<char>, b: Seq<char>)
    requires
        within_segment(a),
        at_boundary(b),
    ensures
        segment_len(a + b) == a.len(),
        segment(a + b) == a,
        (a + b).skip(a.len() as int) == b,
    decreases a.len(),
{
    if a.len() == 0 {
        assert(a + b == b);
    } else {
        let t = a.drop_first();
        lemma_segment_of_concat(t, b);
        assert((a + b).drop_first() == t + b);
    }
    assert((a + b).take(a.len() as int) == a);
}

/// A pattern with no parameter matches exactly the path that equals it, and
/// captures nothing.
pub proof fn literal_pattern_matches_only_itself(pattern: Seq<char>, candidate: Seq<char>)
    requires
        is_literal(pattern),
    ensures
        match_result(pattern, candidate) == (if candidate == pattern {
            Some(Map::<Seq<char>, Seq<char>>::empty())
        } else {
            None
        }),
{
    lemma_scan_literal(pattern, candidate, Map::empty());
}

/// A parameter captures its whole segment of the candidate, independently of
/// the parameters after it: matching `pre :name rest_p` against `pre value rest_c`
/// gives what matching `rest_p` against `rest_c` gives, with `name => value`
/// added unless a later parameter has the same name.
pub proof fn parameter_captures_its_segment(
    pre: Seq<char>,
    name: Seq<char>,
    rest_p: Seq<char>,
    value: Seq<char>,
    rest_c: Seq<char>,
)
    requires
        is_literal(pre),
        within_segment(name),
        within_segment(value),
        at_boundary(rest_p),
        at_boundary(rest_c),
    ensures
        match_result(pre + seq![PARAMETER_MARKER] + name + rest_p, pre + value + rest_c)
            == with_capture(name, value, match_result(rest_p, rest_c)),
{
    let p = seq![PARAMETER_MARKER] + name + rest_p;
    let c = value + rest_c;
    assert(pre + seq![PARAMETER_MARKER] + name + rest_p == pre + p);
    assert(pre + value + rest_c == pre + c);
    lemma_scan_common_prefix(pre, p, c, Map::empty());
    assert(p.drop_first() == name + rest_p);
    lemma_segment_of_concat(name, rest_p);
    lemma_segment_of_concat(value, rest_c);
    lemma_scan_acc(rest_p, rest_c, Map::empty().insert(name, value));
    assert(Map::<Seq<char>, Seq<char>>::empty().insert(name, value) =~= map![name => value]);
}

/// A pattern with one parameter matches a candidate that agrees with it
/// everywhere else and has a single segment in the parameter's place, and the
/// parameter captures that segment whole, however long.
pub proof fn single_parameter_captures_segment(
    pre: Seq<char>,
    name: Seq<char>,
    post: Seq<char>,
    value: Seq<char>,
)
    requires
        is_literal(pre),
        is_literal(post),
        within_segment(name),
        within_segment(value),
        at_boundary(post),
    ensures
        match_result(pre + seq![PARAMETER_MARKER] + name + post, pre + value + post) == Some(
            map![name => value],
        ),
{
    parameter_captures_its_segment(pre, name, post, value, post);
    lemma_scan_literal(post, post, Map::empty());
    assert(map![name => value].union_prefer_right(Map::empty()) =~= map![name => value]);
}

/// A successful scan consumes as many separators on each side.
proof fn lemma_scan_separators(p: Seq<char>, c: Seq<char>, acc: Map<Seq<char>, Seq<char>>)
    requires
        scan(p, c, acc) is Some,
    ensures
        separator_count(p) == separator_count(c),
    decreases p.len() + c.len(),
{
    if p.len() > 0 {
        if p[0] == PARAMETER_MARKER {
            let rest = p.drop_first();
            lemma_segment_len(rest);
            lemma_segment_len(c);
            lemma_scan_separators(
                rest.skip(segment_len(rest) as int),
                c.skip(segment_len(c) as int),
                acc.insert(segment(rest), segment(c)),
            );
            lemma_separator_count_skip(rest, segment_len(rest) as int);
            lemma_separator_count_skip(c, segment_len(c) as int);
        } else {
            lemma_scan_separators(p.drop_first(), c.drop_first(), acc);
        }
    }
}

/// A candidate with more or fewer segments than the pattern never matches,
/// whatever its parameters.
pub proof fn segment_count_mismatch_never_matches(pattern: Seq<char>, candidate: Seq<char>)
    requires
        segment_count(pattern) != segment_count(candidate),
    ensures
        match_result(pattern, candidate) is None,
{
    if match_result(pattern, candidate) is Some {
        lemma_scan_separators(pattern, candidate, Map::empty());
    }
}

} // verus!
