//! Splitting a path-like pattern into its segments.

use vstd::prelude::*;

verus! {

/// The pieces of `s` between `/` characters, empty pieces included:
/// `"a//b/"` gives `"a"`, `""`, `"b"`, `""`.
pub open spec fn raw_segments(s: Seq<char>) -> Seq<Seq<char>>
    decreases s.len(),
{
    if s.len() == 0 {
        seq![Seq::empty()]
    } else {
        let prev = raw_segments(s.drop_last());
        if s.last() == '/' {
            prev.push(Seq::empty())
        } else {
            prev.update(prev.len() - 1, prev.last().push(s.last()))
        }
    }
}

/// Whether the raw piece `seg`, at index `index`, names a path component.
/// Empty pieces come from a root or from repeated separators; a `.` names
/// the current directory, which counts only at the very start.
pub open spec fn is_component(seg: Seq<char>, index: int) -> bool {
    seg.len() > 0 && (seg != seq!['.'] || index == 0)
}

/// The components among `raw`, in order.
pub open spec fn components(raw: Seq<Seq<char>>) -> Seq<Seq<char>>
    decreases raw.len(),
{
    if raw.len() == 0 {
        Seq::empty()
    } else {
        let prev = components(raw.drop_last());
        if is_component(raw.last(), raw.len() - 1) {
            prev.push(raw.last())
        } else {
            prev
        }
    }
}

/// The path components of a pattern: its pieces between `/`, without the
/// root, empty pieces and inner `.` pieces.
pub open spec fn path_segments(s: Seq<char>) -> Seq<Seq<char>> {
    components(raw_segments(s))
}

proof fn lemma_raw_segments_nonempty(s: Seq<char>)
    ensures
        raw_segments(s).len() >= 1,
    decreases s.len(),
{
    if s.len() > 0 {
        lemma_raw_segments_nonempty(s.drop_last());
    }
}

/// Whether `s` is the single character `.`.
fn is_dot(s: &str) -> (r: bool)
    ensures
        r == (s@ == seq!['.']),
{
    if s.unicode_len() == 1 {
        let c = s.get_char(0);
        if c == '.' {
            assert(s@ =~= seq!['.']);
        }
        c == '.'
    } else {
        false
    }
}

/// Splits `pattern` into its path components (see `path_segments`).
pub fn split_segments(pattern: &str) -> (r: Vec<String>)
    ensures
        r@.map_values(|x: String| x@) == path_segments(pattern@),
        forall|k: int| 0 <= k < r@.len() ==> #[trigger] r@[k]@.len() <= pattern@.len(),
{
    let n = pattern.unicode_len();
    let mut out: Vec<String> = Vec::new();
    let mut start: usize = 0;
    let mut index: usize = 0;
    let mut i: usize = 0;
    proof {
        assert(pattern@.take(0) =~= Seq::<char>::empty());
    }
    while i < n
        invariant
            n == pattern@.len(),
            start <= i <= n,
            index <= i,
            raw_segments(pattern@.take(i as int)).len() == index + 1,
            raw_segments(pattern@.take(i as int)).last() == pattern@.subrange(start as int, i as int),
            out@.map_values(|x: String| x@) == components(
                raw_segments(pattern@.take(i as int)).drop_last(),
            ),
            forall|k: int| 0 <= k < out@.len() ==> #[trigger] out@[k]@.len() <= n,
        decreases n - i,
    {
        let c = pattern.get_char(i);
        let ghost prev = raw_segments(pattern@.take(i as int));
        proof {
            assert(pattern@.take(i + 1).drop_last() =~= pattern@.take(i as int));
            assert(pattern@.take(i + 1).last() == c);
        }
        if c == '/' {
            let seg = pattern.substring_char(start, i);
            let keep = seg.unicode_len() > 0 && (!is_dot(seg) || index == 0);
            proof {
                let now = raw_segments(pattern@.take(i + 1));
                assert(now == prev.push(Seq::empty()));
                assert(now.drop_last() =~= prev);
                assert(prev.drop_last() =~= prev.drop_last());
            }
            if keep {
                out.push(String::from_str(seg));
            }
            proof {
                let now = raw_segments(pattern@.take(i + 1));
                assert(now.drop_last() =~= prev);
                assert(components(prev) == if is_component(prev.last(), prev.len() - 1) {
                    components(prev.drop_last()).push(prev.last())
                } else {
                    components(prev.drop_last())
                });
                assert(out@.map_values(|x: String| x@) =~= components(now.drop_last()));
                assert(pattern@.subrange(i + 1, i + 1) =~= Seq::<char>::empty());
            }
            index = index + 1;
            start = i + 1;
        } else {
            proof {
                let now = raw_segments(pattern@.take(i + 1));
                assert(now == prev.update(prev.len() - 1, prev.last().push(c)));
                assert(now.drop_last() =~= prev.drop_last());
                assert(now.last() =~= pattern@.subrange(start as int, i + 1));
            }
        }
        i = i + 1;
    }
    let seg = pattern.substring_char(start, n);
    let keep = seg.unicode_len() > 0 && (!is_dot(seg) || index == 0);
    if keep {
        out.push(String::from_str(seg));
    }
    proof {
        let raw = raw_segments(pattern@);
        assert(pattern@.take(n as int) =~= pattern@);
        lemma_raw_segments_nonempty(pattern@);
        assert(components(raw) == if is_component(raw.last(), raw.len() - 1) {
            components(raw.drop_last()).push(raw.last())
        } else {
            components(raw.drop_last())
        });
        assert(out@.map_values(|x: String| x@) =~= components(raw));
    }
    out
}

} // verus!
