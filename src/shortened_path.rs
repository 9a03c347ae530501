//! Short, still unique, names for the directories on a path.

use vstd::prelude::*;

verus! {

/// What `char::is_alphanumeric` says of `c`.
pub uninterp spec fn alphanumeric(c: char) -> bool;

/// Relies on `char::is_alphanumeric`, which depends on the character alone.
#[verifier::external_body]
fn is_alphanumeric(c: char) -> (r: bool)
    ensures
        r == alphanumeric(c),
{
    c.is_alphanumeric()
}

/// Whether `s` begins with `prefix`.
pub open spec fn is_prefix(prefix: Seq<char>, s: Seq<char>) -> bool {
    prefix.len() <= s.len() && s.take(prefix.len() as int) == prefix
}

/// Whether `s` begins with `prefix`.
pub fn starts_with(s: &str, prefix: &str) -> (r: bool)
    ensures
        r == is_prefix(prefix@, s@),
{
    let n = prefix.unicode_len();
    if n > s.unicode_len() {
        return false;
    }
    let mut i: usize = 0;
    while i < n
        invariant
            n == prefix@.len(),
            n <= s@.len(),
            i <= n,
            s@.take(i as int) == prefix@.take(i as int),
        decreases n - i,
    {
        if s.get_char(i) != prefix.get_char(i) {
            assert(s@.take(n as int)[i as int] != prefix@[i as int]);
            return false;
        }
        assert(s@.take(i + 1) =~= s@.take(i as int).push(s@[i as int]));
        assert(prefix@.take(i + 1) =~= prefix@.take(i as int).push(prefix@[i as int]));
        i = i + 1;
    }
    assert(prefix@.take(n as int) =~= prefix@);
    true
}

/// Cutting `itself` after its first `p` characters keeps it apart from
/// every other name that does not begin with the whole of `itself`: the cut
/// ends in an alphanumeric character and begins none of those names.
pub open spec fn is_unique_cut(itself: Seq<char>, others: Seq<Seq<char>>, p: int) -> bool {
    &&& 1 <= p < itself.len()
    &&& alphanumeric(itself[p - 1])
    &&& forall|i: int|
        0 <= i < others.len() && !is_prefix(itself, others[i]) ==> !is_prefix(
            itself.take(p),
            #[trigger] others[i],
        )
}

/// The shortest unique cut of `itself` that is at least `p` long, or all of
/// `itself` where there is none.
pub open spec fn shortest_cut_from(itself: Seq<char>, others: Seq<Seq<char>>, p: int) -> Seq<
    char,
>
    decreases itself.len() - p,
{
    if p >= itself.len() {
        itself
    } else if is_unique_cut(itself, others, p) {
        itself.take(p)
    } else {
        shortest_cut_from(itself, others, p + 1)
    }
}

/// The shortest beginning of `itself` that still tells it apart from
/// `others`: see `is_unique_cut`.
pub open spec fn shortest_cut(itself: Seq<char>, others: Seq<Seq<char>>) -> Seq<char> {
    shortest_cut_from(itself, others, 1)
}

/// The shortest beginning of `itself`, ending in an alphanumeric character,
/// that no name of `others` begins with. Names that begin with all of
/// `itself` are left out, since nothing shorter than `itself` can be told
/// apart from them.
pub fn shortest_unique<'i>(itself: &'i str, others: Vec<&str>) -> (r: &'i str)
    ensures
        r@ == shortest_cut(itself@, others@.map_values(|o: &str| o@)),
{
    let ghost os = others@.map_values(|o: &str| o@);
    let n = itself.unicode_len();
    let mut p: usize = 1;
    while p < n
        invariant
            n == itself@.len(),
            1 <= p,
            os == others@.map_values(|o: &str| o@),
            shortest_cut(itself@, os) == shortest_cut_from(itself@, os, p as int),
        decreases n - p,
    {
        let part = itself.substring_char(0, p);
        assert(part@ =~= itself@.take(p as int));
        if is_alphanumeric(itself.get_char(p - 1)) {
            let mut unique = true;
            let mut i: usize = 0;
            while i < others.len()
                invariant
                    os == others@.map_values(|o: &str| o@),
                    part@ == itself@.take(p as int),
                    i <= others@.len(),
                    unique == forall|k: int|
                        0 <= k < i && !is_prefix(itself@, os[k]) ==> !is_prefix(
                            part@,
                            #[trigger] os[k],
                        ),
                decreases others@.len() - i,
            {
                let other = others[i];
                assert(os[i as int] == other@);
                if !starts_with(other, itself) && starts_with(other, part) {
                    unique = false;
                }
                i = i + 1;
            }
            if unique {
                return part;
            }
        }
        p = p + 1;
    }
    itself
}

} // verus!
