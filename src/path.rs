use std::str::Chars;
use vstd::prelude::*;
use vstd::std_specs::iter::IteratorSpec;

use crate::parameters::RouteParameters;
use crate::text::{lemma_segment_len, peek, segment, segment_len, take_segment, SEPARATOR};

verus! {

/// The character that opens a parameter in a pattern.
pub const PARAMETER_MARKER: char = ':';

/// Scans pattern `p` and candidate `c` side by side from their first
/// characters, with `acc` holding what was captured so far.
///
/// A marker in `p` captures: the name is the rest of the pattern's segment,
/// the value is the rest of the candidate's segment (possibly empty), and
/// the scan goes on from the separators (or ends) that closed them. Any other
/// character of `p` must equal the next character of `c`. The scan succeeds
/// when both run out together.
pub open spec fn scan(p: Seq<char>, c: Seq<char>, acc: Map<Seq<char>, Seq<char>>) -> Option<
    Map<Seq<char>, Seq<char>>,
>
    decreases p.len() + c.len(),
{
    if p.len() == 0 {
        if c.len() == 0 {
            Some(acc)
        } else {
            None
        }
    } else if p[0] == PARAMETER_MARKER {
        let rest = p.drop_first();
        proof {
            lemma_segment_len(rest);
            lemma_segment_len(c);
        }
        scan(
            rest.skip(segment_len(rest) as int),
            c.skip(segment_len(c) as int),
            acc.insert(segment(rest), segment(c)),
        )
    } else if c.len() > 0 && p[0] == c[0] {
        scan(p.drop_first(), c.drop_first(), acc)
    } else {
        None
    }
}

/// What matching `candidate` against `pattern` gives: the captured parameters,
/// or `None` when the candidate does not fit the pattern.
pub open spec fn match_result(pattern: Seq<char>, candidate: Seq<char>) -> Option<
    Map<Seq<char>, Seq<char>>,
> {
    scan(pattern, candidate, Map::empty())
}

/// The parameters that a match returned, as a map.
pub open spec fn result_view(r: Option<RouteParameters>) -> Option<Map<Seq<char>, Seq<char>>> {
    match r {
        Some(m) => Some(m@),
        None => None,
    }
}

/// Takes one parameter from both cursors: the name from `route`, up to the next
/// separator or the end, and the value from `path` in the same way. Both cursors
/// are left at the separator that closed what they gave, or at their end.
pub fn capture_route_parameter(route: &mut Chars, path: &mut Chars) -> (r: (String, String))
    ensures
        r.0@ == segment((*old(route)).remaining()),
        r.1@ == segment((*old(path)).remaining()),
        (*final(route)).remaining() == (*old(route)).remaining().skip(
            segment_len((*old(route)).remaining()) as int,
        ),
        (*final(path)).remaining() == (*old(path)).remaining().skip(
            segment_len((*old(path)).remaining()) as int,
        ),
{
    let key = take_segment(route);
    let value = take_segment(path);
    (key, value)
}

/// A route pattern: segments separated by `/`, where a segment that starts
/// with `:` names a parameter.
#[derive(Debug)]
pub struct Path {
    path: String,
}

impl Path {
    /// The text of the pattern.
    pub closed spec fn pattern(&self) -> Seq<char> {
        self.path@
    }

    /// A pattern holding exactly the text `path`.
    pub fn new(path: &str) -> (r: Path)
        ensures
            r.pattern() == path@,
    {
        Path { path: path.to_owned() }
    }

    /// Matches `other_path` against the pattern, returning the parameters that
    /// it captured, or `None` when the path does not fit.
    pub fn matches(&self, other_path: &str) -> (r: Option<RouteParameters>)
        ensures
            result_view(r) == match_result(self.pattern(), other_path@),
    {
        let ghost p = self.path@;
        let ghost c = other_path@;
        let mut self_chars = self.path.as_str().chars();
        let mut path_chars = other_path.chars();
        let mut params = RouteParameters::new();
        let ghost mut i: int = 0;
        let ghost mut j: int = 0;
        assert(p.skip(0) == p);
        assert(c.skip(0) == c);
        loop
            invariant
                p == self.pattern(),
                c == other_path@,
                0 <= i <= p.len(),
                0 <= j <= c.len(),
                self_chars.remaining() == p.skip(i),
                path_chars.remaining() == c.skip(j),
                scan(p.skip(i), c.skip(j), params@) == match_result(p, c),
            decreases p.len() - i + c.len() - j,
        {
            let ghost ps = p.skip(i);
            let ghost cs = c.skip(j);
            let s = peek(&self_chars);
            let t = peek(&path_chars);
            match s {
                None => {
                    assert(ps.len() == 0);
                    if t.is_none() {
                        assert(cs.len() == 0);
                        assert(scan(ps, cs, params@) == Some(params@));
                        return Some(params);
                    }
                    assert(scan(ps, cs, params@) is None);
                    return None;
                },
                Some(a) => {
                    if a == PARAMETER_MARKER {
                        self_chars.next();
                        let ghost rest = ps.drop_first();
                        proof {
                            lemma_segment_len(rest);
                            lemma_segment_len(cs);
                        }
                        let (key, value) = capture_route_parameter(&mut self_chars, &mut path_chars);
                        params.insert(key, value);
                        proof {
                            assert(rest.skip(segment_len(rest) as int) == p.skip(
                                i + 1 + segment_len(rest),
                            ));
                            assert(cs.skip(segment_len(cs) as int) == c.skip(j + segment_len(cs)));
                            i = i + 1 + segment_len(rest);
                            j = j + segment_len(cs);
                        }
                    } else {
                        match t {
                            Some(b) => {
                                if a != b {
                                    assert(scan(ps, cs, params@) is None);
                                    return None;
                                }
                                self_chars.next();
                                path_chars.next();
                                proof {
                                    assert(ps.drop_first() == p.skip(i + 1));
                                    assert(cs.drop_first() == c.skip(j + 1));
                                    i = i + 1;
                                    j = j + 1;
                                }
                            },
                            None => {
                                assert(scan(ps, cs, params@) is None);
                                return None;
                            },
                        }
                    }
                },
            }
        }
    }
}

/// Two patterns are equal when their texts are.
impl PartialEq for Path {
    fn eq(&self, other: &Path) -> (r: bool)
        ensures
            r == (self.pattern() == other.pattern()),
    {
        self.path == other.path
    }
}

impl vstd::std_specs::cmp::PartialEqSpecImpl for Path {
    open spec fn obeys_eq_spec() -> bool {
        true
    }

    open spec fn eq_spec(&self, other: &Path) -> bool {
        self.pattern() == other.pattern()
    }
}

} // verus!
