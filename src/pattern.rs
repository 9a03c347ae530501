//! Compiled patterns: what kind of entry they ask for, at which depth, and
//! the glob its name must match.

use vstd::prelude::*;

use crate::glob::{glob_builds, glob_matches, SegmentGlob, MAX_GLOB_CHARS};
use crate::segments::{path_segments, split_segments};

verus! {

/// What kind of filesystem entry satisfies a pattern.
#[derive(Debug, Clone, Copy, PartialEq, Eq, Structural)]
pub enum Kind {
    File,
    Directory,
}

/// Why a pattern text cannot be compiled.
#[derive(Debug, Clone, Copy, PartialEq, Eq, Structural)]
pub enum PatternError {
    /// The pattern has no path component.
    Empty,
    /// A `**` component is followed by more than the final name.
    TooDeep,
    /// A component is not a valid glob.
    InvalidGlob,
}

/// Where, below the directory being checked, a pattern's final glob applies.
pub enum Position {
    /// At this level or at any level below it.
    Anywhere,
    /// At this level only.
    Here,
    /// Inside a child directory whose name matches `direct`, at `below`.
    Below { direct: SegmentGlob, below: Box<Position> },
}

impl Position {
    /// The globs that the directories on the way down have to match, in order.
    pub open spec fn globs(&self) -> Seq<Seq<char>>
        decreases self,
    {
        match self {
            Position::Below { direct, below } => seq![direct@].add(below.globs()),
            _ => Seq::empty(),
        }
    }

    /// Whether the way down ends in `**`.
    pub open spec fn ends_anywhere(&self) -> bool
        decreases self,
    {
        match self {
            Position::Anywhere => true,
            Position::Here => false,
            Position::Below { below, .. } => below.ends_anywhere(),
        }
    }

    /// Whether entries at the current level can satisfy a pattern here.
    pub open spec fn is_active(&self) -> bool {
        !(self is Below)
    }

    /// The position after stepping into a child directory named `name`;
    /// `None` where the pattern can no longer match below that child.
    pub open spec fn descend_spec(&self, name: Seq<char>) -> Option<Position> {
        match self {
            Position::Anywhere => Some(Position::Anywhere),
            Position::Here => None,
            Position::Below { direct, below } => if glob_matches(direct@, name) {
                Some(**below)
            } else {
                None
            },
        }
    }

    /// One step of descent into the child directory `name`.
    pub fn descend(&self, name: &str) -> (r: Option<&Position>)
        ensures
            match self.descend_spec(name@) {
                Some(p) => r matches Some(q) && *q == p,
                None => r is None,
            },
    {
        match self {
            Position::Anywhere => Some(self),
            Position::Here => None,
            Position::Below { direct, below } => {
                if direct.is_match(name) {
                    Some(&**below)
                } else {
                    None
                }
            },
        }
    }

    /// Whether entries at the current level can satisfy a pattern here.
    pub fn applies_here(&self) -> (r: bool)
        ensures
            r == self.is_active(),
    {
        match self {
            Position::Below { .. } => false,
            _ => true,
        }
    }

    /// Whether the position is `Here`.
    pub fn is_here(&self) -> (r: bool)
        ensures
            r == (self is Here),
    {
        match self {
            Position::Here => true,
            _ => false,
        }
    }
}

/// A compiled pattern.
pub struct Pattern {
    /// Tells this pattern apart from the others compiled with it (`many`
    /// numbers them). While a directory is checked, each pattern of the
    /// list is followed by its place in the list, which comes to the same
    /// for patterns with distinct identifiers.
    pub unique_identifier: usize,
    pub kind: Kind,
    pub position: Position,
    /// The glob that the name of the entry itself has to match.
    pub target: SegmentGlob,
}

/// Whether the segment is `**`.
pub open spec fn is_anywhere(seg: Seq<char>) -> bool {
    seg == seq!['*', '*']
}

/// The first problem met when compiling the components `segs` from index
/// `i` on, left to right: all but the last describe the position, the last
/// is the target.
pub open spec fn failure_from(segs: Seq<Seq<char>>, i: int) -> Option<PatternError>
    decreases segs.len() - i,
{
    if i < 0 || i >= segs.len() {
        None
    } else if i == segs.len() - 1 {
        if glob_builds(segs[i]) {
            None
        } else {
            Some(PatternError::InvalidGlob)
        }
    } else if is_anywhere(segs[i]) {
        if i == segs.len() - 2 {
            failure_from(segs, i + 1)
        } else {
            Some(PatternError::TooDeep)
        }
    } else if !glob_builds(segs[i]) {
        Some(PatternError::InvalidGlob)
    } else {
        failure_from(segs, i + 1)
    }
}

/// Why the pattern text `s` cannot be compiled, or `None` where it can.
pub open spec fn pattern_error(s: Seq<char>) -> Option<PatternError> {
    let segs = path_segments(s);
    if segs.len() == 0 {
        Some(PatternError::Empty)
    } else {
        failure_from(segs, 0)
    }
}

/// Whether the components before the target end in `**`.
pub open spec fn segments_end_anywhere(segs: Seq<Seq<char>>) -> bool {
    segs.len() >= 2 && is_anywhere(segs[segs.len() - 2])
}

/// The globs of the directories on the way down to the target.
pub open spec fn segments_globs(segs: Seq<Seq<char>>) -> Seq<Seq<char>> {
    if segments_end_anywhere(segs) {
        segs.take(segs.len() - 2)
    } else {
        segs.take(segs.len() - 1)
    }
}

impl Pattern {
    /// `self` is what compiling the text `s` as a pattern for entries of
    /// kind `kind`, under the identifier `id`, gives.
    pub open spec fn compiled_from(&self, id: usize, kind: Kind, s: Seq<char>) -> bool {
        let segs = path_segments(s);
        &&& self.unique_identifier == id
        &&& self.kind == kind
        &&& self.target@ == segs.last()
        &&& self.position.globs() == segments_globs(segs)
        &&& self.position.ends_anywhere() == segments_end_anywhere(segs)
    }
}

/// Whether `s` is `**`.
fn is_double_star(s: &str) -> (r: bool)
    ensures
        r == is_anywhere(s@),
{
    if s.unicode_len() == 2 {
        let a = s.get_char(0);
        let b = s.get_char(1);
        if a == '*' && b == '*' {
            assert(s@ =~= seq!['*', '*']);
        }
        a == '*' && b == '*'
    } else {
        false
    }
}

/// Builds the position from the globs of the directories on the way down
/// and whether it ends in `**`.
fn build_position(globs: Vec<SegmentGlob>, anywhere: bool) -> (r: Position)
    ensures
        r.globs() == globs@.map_values(|g: SegmentGlob| g@),
        r.ends_anywhere() == anywhere,
{
    let mut globs = globs;
    let ghost all = globs@.map_values(|g: SegmentGlob| g@);
    let mut position = if anywhere {
        Position::Anywhere
    } else {
        Position::Here
    };
    assert(globs@.map_values(|g: SegmentGlob| g@) + position.globs() =~= all);
    while globs.len() > 0
        invariant
            globs@.map_values(|g: SegmentGlob| g@) + position.globs() == all,
            position.ends_anywhere() == anywhere,
        decreases globs.len(),
    {
        let ghost before = globs@;
        let direct = globs.pop().unwrap();
        proof {
            assert(before == globs@.push(direct));
            assert(before.map_values(|g: SegmentGlob| g@) =~= globs@.map_values(
                |g: SegmentGlob| g@,
            ).push(direct@));
        }
        position = Position::Below { direct, below: Box::new(position) };
        assert(globs@.map_values(|g: SegmentGlob| g@) + position.globs() =~= all);
    }
    assert(position.globs() =~= all);
    position
}

impl Pattern {
    /// Compiles the path-like `pattern`: its last component is the glob for
    /// the entry's name, those before it say in which directories below the
    /// checked one the entry may lie. A `**` is allowed only as the last of
    /// them, and means any depth.
    pub fn new(unique_identifier: usize, kind: Kind, pattern: &str) -> (r: Result<
        Pattern,
        PatternError,
    >)
        requires
            pattern@.len() <= MAX_GLOB_CHARS,
        ensures
            match pattern_error(pattern@) {
                Some(e) => r == Err::<Pattern, PatternError>(e),
                None => r matches Ok(p) && p.compiled_from(unique_identifier, kind, pattern@),
            },
    {
        let segments = split_segments(pattern);
        let ghost segs = path_segments(pattern@);
        let n = segments.len();
        if n == 0 {
            return Err(PatternError::Empty);
        }
        let mut globs: Vec<SegmentGlob> = Vec::new();
        let mut anywhere = false;
        let mut i: usize = 0;
        while i + 1 < n
            invariant
                segments@.map_values(|x: String| x@) == segs,
                segs == path_segments(pattern@),
                pattern@.len() <= MAX_GLOB_CHARS,
                forall|k: int| 0 <= k < n ==> #[trigger] segments@[k]@.len() <= pattern@.len(),
                n == segs.len(),
                n >= 1,
                i + 1 <= n,
                failure_from(segs, 0) == failure_from(segs, i as int),
                !anywhere ==> globs@.map_values(|g: SegmentGlob| g@) == segs.take(i as int),
                !anywhere && i >= 1 ==> !is_anywhere(segs[i - 1]),
                anywhere ==> i == n - 1 && segments_end_anywhere(segs) && globs@.map_values(
                    |g: SegmentGlob| g@,
                ) == segs.take(n - 2),
            decreases n - i,
        {
            let segment = segments[i].as_str();
            assert(segment@ == segs[i as int]);
            if is_double_star(segment) {
                if i + 2 == n {
                    anywhere = true;
                    i = i + 1;
                } else {
                    assert(failure_from(segs, i as int) == Some(PatternError::TooDeep));
                    return Err(PatternError::TooDeep);
                }
            } else {
                match SegmentGlob::compile(segment) {
                    Some(g) => {
                        globs.push(g);
                        assert(globs@.map_values(|g: SegmentGlob| g@) =~= segs.take(i + 1));
                        i = i + 1;
                    },
                    None => {
                        assert(failure_from(segs, i as int) == Some(PatternError::InvalidGlob));
                        return Err(PatternError::InvalidGlob);
                    },
                }
            }
        }
        let target_text = segments[n - 1].as_str();
        let target = match SegmentGlob::compile(target_text) {
            Some(g) => g,
            None => {
                return Err(PatternError::InvalidGlob);
            },
        };
        proof {
            assert(failure_from(segs, (n - 1) as int) == failure_from(segs, n as int));
            if !anywhere {
                assert(!segments_end_anywhere(segs));
            }
        }
        let position = build_position(globs, anywhere);
        Ok(Pattern { unique_identifier, kind, position, target })
    }
}

/// The first of the errors that compiling the texts in order meets.
pub open spec fn first_error(texts: Seq<Seq<char>>) -> Option<PatternError>
    decreases texts.len(),
{
    if texts.len() == 0 {
        None
    } else {
        match pattern_error(texts[0]) {
            Some(e) => Some(e),
            None => first_error(texts.drop_first()),
        }
    }
}

/// The texts of the directory patterns followed by those of the file
/// patterns.
pub open spec fn all_texts(directory: Seq<String>, file: Seq<String>) -> Seq<Seq<char>> {
    directory.map_values(|x: String| x@) + file.map_values(|x: String| x@)
}

impl Pattern {
    /// Compiles the directory patterns and then the file patterns, each with
    /// its index in that order as identifier.
    pub fn many(directory: Vec<String>, file: Vec<String>) -> (r: Result<Vec<Pattern>, PatternError>)
        requires
            directory.len() + file.len() <= usize::MAX,
            forall|i: int| 0 <= i < directory.len() ==> #[trigger] directory@[i]@.len() <= MAX_GLOB_CHARS,
            forall|i: int| 0 <= i < file.len() ==> #[trigger] file@[i]@.len() <= MAX_GLOB_CHARS,
        ensures
            match first_error(all_texts(directory@, file@)) {
                Some(e) => r == Err::<Vec<Pattern>, PatternError>(e),
                None => r matches Ok(ps) && ps.len() == directory.len() + file.len() && (forall|
                    i: int,
                |
                    0 <= i < directory.len() ==> #[trigger] ps[i].compiled_from(
                        i as usize,
                        Kind::Directory,
                        directory@[i]@,
                    )) && (forall|i: int|
                    directory.len() <= i < ps.len() ==> #[trigger] ps[i].compiled_from(
                        i as usize,
                        Kind::File,
                        file@[i - directory.len()]@,
                    )),
            },
    {
        let ghost texts = all_texts(directory@, file@);
        assert forall|k: int| 0 <= k < texts.len() implies #[trigger] texts[k].len() <= MAX_GLOB_CHARS by {
            if k < directory.len() {
                assert(texts[k] == directory@[k]@);
            } else {
                assert(texts[k] == file@[k - directory.len()]@);
            }
        }
        let offset = directory.len();
        let total = offset + file.len();
        let mut out: Vec<Pattern> = Vec::new();
        let mut i: usize = 0;
        assert(texts.skip(0) =~= texts);
        while i < total
            invariant
                texts == all_texts(directory@, file@),
                offset == directory.len(),
                total == offset + file.len(),
                texts.len() == total,
                forall|k: int| 0 <= k < total ==> #[trigger] texts[k].len() <= MAX_GLOB_CHARS,
                i <= total,
                out.len() == i,
                first_error(texts) == first_error(texts.skip(i as int)),
                forall|k: int| 0 <= k < i ==> pattern_error(#[trigger] texts[k]) is None,
                forall|k: int|
                    0 <= k < i && k < offset ==> #[trigger] out@[k].compiled_from(
                        k as usize,
                        Kind::Directory,
                        texts[k],
                    ),
                forall|k: int|
                    0 <= k < i && offset <= k ==> #[trigger] out@[k].compiled_from(
                        k as usize,
                        Kind::File,
                        texts[k],
                    ),
            decreases total - i,
        {
            let (kind, text) = if i < offset {
                (Kind::Directory, directory[i].as_str())
            } else {
                (Kind::File, file[i - offset].as_str())
            };
            assert(text@ == texts[i as int]);
            assert(texts.skip(i as int)[0] == texts[i as int]);
            assert(texts.skip(i as int).drop_first() =~= texts.skip(i + 1));
            match Pattern::new(i, kind, text) {
                Ok(p) => {
                    out.push(p);
                },
                Err(e) => {
                    return Err(e);
                },
            }
            i = i + 1;
        }
        proof {
            assert forall|k: int| directory.len() <= k < out.len() implies #[trigger] out@[k].compiled_from(
                k as usize,
                Kind::File,
                file@[k - directory.len()]@,
            ) by {
                assert(texts[k] == file@[k - directory.len()]@);
            }
            assert forall|k: int| 0 <= k < directory.len() implies #[trigger] out@[k].compiled_from(
                k as usize,
                Kind::Directory,
                directory@[k]@,
            ) by {
                assert(texts[k] == directory@[k]@);
            }
            assert(texts.skip(total as int) =~= Seq::<Seq<char>>::empty());
        }
        Ok(out)
    }
}

/// Whether an entry of kind `entry` named `name`, lying inside the
/// directories `dirs` (outermost first) below the checked directory,
/// satisfies the pattern (`kind`, `target`) whose position at the checked
/// directory is `pos`.
pub open spec fn path_matches_from(
    kind: Kind,
    target: Seq<char>,
    pos: Position,
    dirs: Seq<Seq<char>>,
    entry: Kind,
    name: Seq<char>,
) -> bool
    decreases dirs.len(),
{
    if dirs.len() == 0 {
        pos.is_active() && kind == entry && glob_matches(target, name)
    } else {
        match pos.descend_spec(dirs[0]) {
            Some(q) => path_matches_from(kind, target, q, dirs.drop_first(), entry, name),
            None => false,
        }
    }
}

impl Pattern {
    /// Whether an entry of kind `entry` named `name`, inside the directories
    /// `dirs` below the checked directory, satisfies this pattern.
    pub open spec fn path_matches(&self, dirs: Seq<Seq<char>>, entry: Kind, name: Seq<char>) -> bool {
        path_matches_from(self.kind, self.target@, self.position, dirs, entry, name)
    }
}

proof fn lemma_same_shape_agrees(
    kind: Kind,
    target: Seq<char>,
    a: Position,
    b: Position,
    dirs: Seq<Seq<char>>,
    entry: Kind,
    name: Seq<char>,
)
    requires
        a.globs() == b.globs(),
        a.ends_anywhere() == b.ends_anywhere(),
    ensures
        path_matches_from(kind, target, a, dirs, entry, name) == path_matches_from(
            kind,
            target,
            b,
            dirs,
            entry,
            name,
        ),
    decreases dirs.len(),
{
    match (a, b) {
        (Position::Below { direct: da, below: ba }, Position::Below { direct: db, below: bb }) => {
            assert(a.globs()[0] == da@);
            assert(b.globs()[0] == db@);
            assert(ba.globs() =~= a.globs().drop_first());
            assert(bb.globs() =~= b.globs().drop_first());
            if dirs.len() > 0 {
                lemma_same_shape_agrees(kind, target, *ba, *bb, dirs.drop_first(), entry, name);
            }
        },
        (Position::Below { .. }, _) => {
            assert(a.globs().len() > 0);
        },
        (_, Position::Below { .. }) => {
            assert(b.globs().len() > 0);
        },
        _ => {
            if dirs.len() > 0 {
                lemma_same_shape_agrees(kind, target, a, b, dirs.drop_first(), entry, name);
            }
        },
    }
}

/// Compiling the same text twice, for the same kind of entry, gives
/// patterns that agree on every path.
pub proof fn lemma_compile_is_deterministic(
    first: Pattern,
    second: Pattern,
    first_id: usize,
    second_id: usize,
    kind: Kind,
    text: Seq<char>,
)
    requires
        first.compiled_from(first_id, kind, text),
        second.compiled_from(second_id, kind, text),
    ensures
        forall|dirs: Seq<Seq<char>>, entry: Kind, name: Seq<char>|
            #[trigger] first.path_matches(dirs, entry, name) == second.path_matches(dirs, entry, name),
{
    assert forall|dirs: Seq<Seq<char>>, entry: Kind, name: Seq<char>|
        #[trigger] first.path_matches(dirs, entry, name) == second.path_matches(dirs, entry, name) by {
        lemma_same_shape_agrees(kind, first.target@, first.position, second.position, dirs, entry, name);
    }
}

} // verus!
