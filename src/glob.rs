//! Single path segment globs, compiled and matched by `globset`.

use vstd::prelude::*;

verus! {

/// The longest glob text, in characters, that `SegmentGlob::compile` takes.
/// The literal matchers that `globset` builds from a glob cannot hold more
/// than about 2^31 bytes, and fail with a panic past that.
pub const MAX_GLOB_CHARS: usize = 0x1000_0000;

/// The opaque set of globs that `globset` compiles.
#[verifier::external_type_specification]
#[verifier::external_body]
pub struct ExGlobSet(globset::GlobSet);

/// Whether `globset` accepts `glob`, with `*` and `?` never crossing a path
/// separator: its syntax parses, and the set holding just this glob
/// compiles (its regular expression stays within `globset`'s limits).
pub uninterp spec fn glob_builds(glob: Seq<char>) -> bool;

/// Whether the file name `name` matches the glob `glob`, compiled with
/// literal separators into a set of its own.
pub uninterp spec fn glob_matches(glob: Seq<char>, name: Seq<char>) -> bool;

/// A glob that applies to a single path segment (a file or directory name).
///
/// The matcher is always the one compiled from `source`: `compile` is the
/// only way to make a value of this type.
pub struct SegmentGlob {
    source: String,
    matcher: globset::GlobSet,
}

impl View for SegmentGlob {
    type V = Seq<char>;

    /// The text of the glob.
    closed spec fn view(&self) -> Seq<char> {
        self.source@
    }
}

impl SegmentGlob {
    /// Relies on `globset::GlobBuilder::build` with `literal_separator(true)`
    /// and on `globset::GlobSetBuilder::build`: each returns an error, not a
    /// panic, on the glob texts that `globset` rejects, and the set built
    /// belongs to this text. The bound on the length keeps the literal
    /// matchers of the set within their limit.
    #[verifier::external_body]
    pub fn compile(source: &str) -> (r: Option<SegmentGlob>)
        requires
            source@.len() <= MAX_GLOB_CHARS,
        ensures
            r is Some <==> glob_builds(source@),
            r matches Some(g) ==> g@ == source@,
    {
        let glob = match globset::GlobBuilder::new(source).literal_separator(true).build() {
            Ok(glob) => glob,
            Err(_) => return None,
        };
        match globset::GlobSetBuilder::new().add(glob).build() {
            Ok(matcher) => Some(SegmentGlob { source: source.to_string(), matcher }),
            Err(_) => None,
        }
    }

    /// Relies on `globset::GlobSet::is_match`: the set holds just the glob
    /// compiled from `self@`, so its answer is `glob_matches(self@, name@)`.
    #[verifier::external_body]
    pub fn is_match(&self, name: &str) -> (r: bool)
        ensures
            r == glob_matches(self@, name@),
    {
        self.matcher.is_match(name)
    }

    /// The text of the glob.
    pub fn glob(&self) -> (r: &str)
        ensures
            r@ == self@,
    {
        self.source.as_str()
    }
}

} // verus!
