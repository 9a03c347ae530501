//! Paths as text: their components, relative paths and joining.

use vstd::prelude::*;

use crate::segments::{path_segments, split_segments};

verus! {

/// Whether the path `s` starts at the root.
pub open spec fn is_absolute(s: Seq<char>) -> bool {
    s.len() > 0 && s[0] == '/'
}

/// The components of `path` after those of `base`, where `path` lies at or
/// below `base`.
pub open spec fn relative_to(path: Seq<char>, base: Seq<char>) -> Option<Seq<Seq<char>>> {
    let p = path_segments(path);
    let b = path_segments(base);
    if is_absolute(path) == is_absolute(base) && b.len() <= p.len() && p.take(b.len() as int) == b {
        Some(p.skip(b.len() as int))
    } else {
        None
    }
}

/// The components joined by `/`.
pub open spec fn joined(parts: Seq<Seq<char>>) -> Seq<char>
    decreases parts.len(),
{
    if parts.len() == 0 {
        Seq::empty()
    } else if parts.len() == 1 {
        parts[0]
    } else {
        joined(parts.drop_last()) + seq!['/'] + parts.last()
    }
}

/// Whether `s` starts at the root.
pub fn starts_at_root(s: &str) -> (r: bool)
    ensures
        r == is_absolute(s@),
{
    s.unicode_len() > 0 && s.get_char(0) == '/'
}

/// The components of `path` after those of `base`; `None` where `path`
/// does not lie at or below `base`.
pub fn relative_components(path: &str, base: &str) -> (r: Option<Vec<String>>)
    ensures
        match relative_to(path@, base@) {
            Some(rest) => r matches Some(v) && v@.map_values(|x: String| x@) == rest,
            None => r is None,
        },
{
    let p = split_segments(path);
    let b = split_segments(base);
    let ghost ps = p@.map_values(|x: String| x@);
    let ghost bs = b@.map_values(|x: String| x@);
    if starts_at_root(path) != starts_at_root(base) || b.len() > p.len() {
        return None;
    }
    let mut i: usize = 0;
    while i < b.len()
        invariant
            ps == p@.map_values(|x: String| x@),
            bs == b@.map_values(|x: String| x@),
            ps == path_segments(path@),
            bs == path_segments(base@),
            is_absolute(path@) == is_absolute(base@),
            b.len() <= p.len(),
            i <= b.len(),
            ps.take(i as int) == bs.take(i as int),
        decreases b.len() - i,
    {
        if p[i] != b[i] {
            assert(ps.take(b.len() as int)[i as int] != bs[i as int]);
            return None;
        }
        assert(ps.take(i + 1) =~= ps.take(i as int).push(ps[i as int]));
        assert(bs.take(i + 1) =~= bs.take(i as int).push(bs[i as int]));
        i = i + 1;
    }
    assert(bs.take(b.len() as int) =~= bs);
    let mut rest: Vec<String> = Vec::new();
    let mut j: usize = b.len();
    while j < p.len()
        invariant
            ps == p@.map_values(|x: String| x@),
            b.len() <= j <= p.len(),
            rest@.map_values(|x: String| x@) == ps.subrange(b.len() as int, j as int),
        decreases p.len() - j,
    {
        let item = p[j].clone();
        assert(item@ == ps[j as int]);
        rest.push(item);
        assert(rest@.map_values(|x: String| x@) =~= ps.subrange(b.len() as int, j as int).push(ps[j as int]));
        assert(rest@.map_values(|x: String| x@) =~= ps.subrange(b.len() as int, j + 1));
        j = j + 1;
    }
    assert(ps.subrange(b.len() as int, p.len() as int) =~= ps.skip(b.len() as int));
    Some(rest)
}

/// The components joined by `/`.
pub fn join(parts: &Vec<String>) -> (r: String)
    ensures
        r@ == joined(parts@.map_values(|x: String| x@)),
{
    let ghost all = parts@.map_values(|x: String| x@);
    let mut out = String::new();
    let mut i: usize = 0;
    proof {
        reveal_strlit("/");
    }
    while i < parts.len()
        invariant
            all == parts@.map_values(|x: String| x@),
            i <= parts.len(),
            out@ == joined(all.take(i as int)),
        decreases parts.len() - i,
    {
        proof {
            reveal_strlit("/");
        }
        let ghost before = out@;
        if i > 0 {
            out.append("/");
        }
        let ghost mid = out@;
        out.append(parts[i].as_str());
        assert(all.take(i + 1).drop_last() =~= all.take(i as int));
        if i > 0 {
            assert(joined(all.take(i + 1)) == joined(all.take(i as int)) + seq!['/'] + all[i as int]);
            assert(mid == before + seq!['/']);
            assert(out@ =~= joined(all.take(i + 1)));
        }
        if i == 0 {
            assert(out@ =~= joined(all.take(1)));
        }
        i = i + 1;
    }
    assert(all.take(parts.len() as int) =~= all);
    out
}

} // verus!
