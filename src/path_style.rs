//! How found project paths are shown.

use vstd::prelude::*;

use crate::cli::PathStyle as CliPathStyle;
use crate::paths::{join, joined, relative_components, relative_to};
use crate::segments::{path_segments, split_segments};
use crate::shortened_path::{shortest_cut, shortest_unique};

verus! {

/// What `pathdiff::diff_paths(path, base)` gives for these two path texts.
pub uninterp spec fn path_diff(path: Seq<char>, base: Seq<char>) -> Option<Seq<char>>;

/// Relies on `pathdiff::diff_paths`: the path that leads from `base` to
/// `path`, worked out from the two texts alone, without the filesystem.
#[verifier::external_body]
fn diff_paths(path: &str, base: &str) -> (r: Option<String>)
    ensures
        match path_diff(path@, base@) {
            Some(d) => r matches Some(s) && s@ == d,
            None => r is None,
        },
{
    pathdiff::diff_paths(path, base).map(|p| p.to_string_lossy().into_owned())
}

/// The way a path is shown.
pub enum PathStyle {
    /// The full, canonical path.
    Canonical,
    /// Only the name of the directory.
    Dirname,
    /// Relative to the base directory.
    BaseDir(String),
    /// Every directory between the base directory and the path cut short.
    Short(String),
    /// Relative to the working directory.
    WorkingDir(String),
}

/// Whether `seg` is `.` or `..`, which name no file.
pub open spec fn is_dot_segment(seg: Seq<char>) -> bool {
    seg == seq!['.'] || seg == seq!['.', '.']
}

/// The last component of `path`, where it names a file or directory.
pub open spec fn file_name(path: Seq<char>) -> Option<Seq<char>> {
    let segs = path_segments(path);
    if segs.len() == 0 || is_dot_segment(segs.last()) {
        None
    } else {
        Some(segs.last())
    }
}

/// The components `comps` with every one but the last cut short against
/// its siblings, where those are known.
pub open spec fn short_parts(
    comps: Seq<Seq<char>>,
    siblings: Seq<Option<Seq<Seq<char>>>>,
) -> Seq<Seq<char>> {
    Seq::new(
        comps.len(),
        |j: int|
            if j == comps.len() - 1 || j >= siblings.len() {
                comps[j]
            } else {
                match siblings[j] {
                    Some(s) => shortest_cut(comps[j], s),
                    None => comps[j],
                }
            },
    )
}

/// The short form of `path` below `base`; `siblings[j]` holds the names of
/// the entries that are not files beside the `j`th directory below `base`,
/// where they could be read. `None` where `path` is not below `base`.
pub open spec fn shortened(
    path: Seq<char>,
    base: Seq<char>,
    siblings: Seq<Option<Seq<Seq<char>>>>,
) -> Option<Seq<char>> {
    match relative_to(path, base) {
        Some(comps) => if comps.len() > 0 && forall|j: int|
            0 <= j < comps.len() ==> !is_dot_segment(#[trigger] comps[j]) {
            Some(joined(short_parts(comps, siblings)))
        } else {
            None
        },
        None => None,
    }
}

/// The views of optional lists of names.
pub open spec fn names_view(s: Seq<Option<Vec<String>>>) -> Seq<Option<Seq<Seq<char>>>> {
    s.map_values(
        |o: Option<Vec<String>>|
            match o {
                Some(v) => Some(v@.map_values(|x: String| x@)),
                None => None,
            },
    )
}

fn is_dot_or_dot_dot(s: &str) -> (r: bool)
    ensures
        r == is_dot_segment(s@),
{
    let n = s.unicode_len();
    if n == 1 {
        let a = s.get_char(0);
        if a == '.' {
            assert(s@ =~= seq!['.']);
        }
        a == '.'
    } else if n == 2 {
        let a = s.get_char(0);
        let b = s.get_char(1);
        if a == '.' && b == '.' {
            assert(s@ =~= seq!['.', '.']);
        }
        a == '.' && b == '.'
    } else {
        false
    }
}

/// The last component of `path`, where it names a file or directory.
pub fn path_file_name(path: &str) -> (r: Option<String>)
    ensures
        match file_name(path@) {
            Some(n) => r matches Some(s) && s@ == n,
            None => r is None,
        },
{
    let mut segs = split_segments(path);
    match segs.pop() {
        Some(last) => {
            if is_dot_or_dot_dot(last.as_str()) {
                None
            } else {
                Some(last)
            }
        },
        None => None,
    }
}

/// The short form of `path` below `base` (see `shortened`).
pub fn shortened_path(path: &str, base: &str, siblings: &Vec<Option<Vec<String>>>) -> (r: Option<
    String,
>)
    ensures
        match shortened(path@, base@, names_view(siblings@)) {
            Some(s) => r matches Some(t) && t@ == s,
            None => r is None,
        },
{
    let ghost sv = names_view(siblings@);
    let comps = match relative_components(path, base) {
        Some(c) => c,
        None => {
            return None;
        },
    };
    let ghost cs = comps@.map_values(|x: String| x@);
    let n = comps.len();
    if n == 0 {
        assert(cs.len() == 0);
        assert(relative_to(path@, base@) == Some(cs));
        assert(shortened(path@, base@, sv) is None);
        return None;
    }
    let mut parts: Vec<String> = Vec::new();
    let mut j: usize = 0;
    while j < n
        invariant
            n == comps@.len(),
            cs == comps@.map_values(|x: String| x@),
            sv == names_view(siblings@),
            relative_to(path@, base@) == Some(cs),
            j <= n,
            forall|k: int| 0 <= k < j ==> !is_dot_segment(#[trigger] cs[k]),
            parts@.map_values(|x: String| x@) == short_parts(cs, sv).take(j as int),
        decreases n - j,
    {
        let comp = comps[j].as_str();
        if is_dot_or_dot_dot(comp) {
            assert(is_dot_segment(cs[j as int]));
            return None;
        }
        let part = if j + 1 == n || j >= siblings.len() {
            String::from_str(comp)
        } else {
            match &siblings[j] {
                Some(names) => {
                    let mut others: Vec<&str> = Vec::new();
                    let mut k: usize = 0;
                    while k < names.len()
                        invariant
                            k <= names@.len(),
                            others@.map_values(|o: &str| o@) == names@.map_values(
                                |x: String| x@,
                            ).take(k as int),
                        decreases names@.len() - k,
                    {
                        let ghost prev = others@;
                        let name = names[k].as_str();
                        others.push(name);
                        assert(others@ == prev.push(name));
                        assert(others@.map_values(|o: &str| o@) =~= prev.map_values(|o: &str| o@).push(names@[k as int]@));
                        assert(others@.map_values(|o: &str| o@) =~= names@.map_values(
                            |x: String| x@,
                        ).take(k + 1));
                        k = k + 1;
                    }
                    assert(names@.map_values(|x: String| x@).take(names@.len() as int)
                        =~= names@.map_values(|x: String| x@));
                    String::from_str(shortest_unique(comp, others))
                },
                None => String::from_str(comp),
            }
        };
        assert(part@ == short_parts(cs, sv)[j as int]);
        let ghost prev = parts@;
        parts.push(part);
        assert(parts@.map_values(|x: String| x@) =~= prev.map_values(|x: String| x@).push(part@));
        assert(parts@.map_values(|x: String| x@) =~= short_parts(cs, sv).take(j + 1));
        j = j + 1;
    }
    assert(short_parts(cs, sv).take(n as int) =~= short_parts(cs, sv));
    Some(join(&parts))
}

/// What the filesystem says of a path, for the styles that need it.
pub struct PathFacts {
    /// The canonical form of the path, where it could be resolved.
    pub canonical: Option<String>,
    /// For each directory between the base directory and the path, the
    /// names of the entries beside it that are not files, where they could
    /// be read.
    pub siblings: Vec<Option<Vec<String>>>,
}

/// A path together with the style to show it in.
pub struct DPath<'a> {
    pub path: &'a str,
    pub kind: &'a PathStyle,
}

/// The text that shows `path` in the style `style`. Where the style cannot
/// be applied (the path is not below the base directory, has no name,
/// cannot be resolved), the path is shown as it is.
pub open spec fn rendered(style: PathStyle, path: Seq<char>, facts: PathFacts) -> Seq<char> {
    match style {
        PathStyle::BaseDir(base) => match relative_to(path, base@) {
            Some(c) => joined(c),
            None => path,
        },
        PathStyle::Canonical => match facts.canonical {
            Some(c) => c@,
            None => path,
        },
        PathStyle::Dirname => match file_name(path) {
            Some(n) => n,
            None => path,
        },
        PathStyle::Short(base) => match shortened(path, base@, names_view(facts.siblings@)) {
            Some(t) => t,
            None => path,
        },
        PathStyle::WorkingDir(pwd) => match path_diff(path, pwd@) {
            Some(d) => d,
            None => path,
        },
    }
}

impl PathStyle {
    /// The style that the command line chose; the working directory is the
    /// one the process runs in, where it could be found. Without it, paths
    /// relative to the working directory are shown canonical.
    pub fn new(cli: CliPathStyle, base: String, working_dir: Option<String>) -> (r: PathStyle)
        ensures
            r == match cli {
                CliPathStyle::BaseDir => PathStyle::BaseDir(base),
                CliPathStyle::Canonical => PathStyle::Canonical,
                CliPathStyle::Dirname => PathStyle::Dirname,
                CliPathStyle::Short => PathStyle::Short(base),
                CliPathStyle::WorkingDir => match working_dir {
                    Some(w) => PathStyle::WorkingDir(w),
                    None => PathStyle::Canonical,
                },
            },
    {
        match cli {
            CliPathStyle::BaseDir => PathStyle::BaseDir(base),
            CliPathStyle::Canonical => PathStyle::Canonical,
            CliPathStyle::Dirname => PathStyle::Dirname,
            CliPathStyle::Short => PathStyle::Short(base),
            CliPathStyle::WorkingDir => match working_dir {
                Some(w) => PathStyle::WorkingDir(w),
                None => PathStyle::Canonical,
            },
        }
    }

    /// `path`, to be shown in this style.
    pub fn path<'a>(&'a self, path: &'a str) -> (r: DPath<'a>)
        ensures
            r.path == path,
            r.kind == self,
    {
        DPath { kind: self, path }
    }
}

impl<'a> DPath<'a> {
    /// The text that shows the path (see `rendered`).
    pub fn render(&self, facts: &PathFacts) -> (r: String)
        ensures
            r@ == rendered(*self.kind, self.path@, *facts),
    {
        let path = self.path;
        match self.kind {
            PathStyle::BaseDir(base) => match relative_components(path, base.as_str()) {
                Some(c) => join(&c),
                None => String::from_str(path),
            },
            PathStyle::Canonical => match &facts.canonical {
                Some(c) => c.clone(),
                None => String::from_str(path),
            },
            PathStyle::Dirname => match path_file_name(path) {
                Some(n) => n,
                None => String::from_str(path),
            },
            PathStyle::Short(base) => match shortened_path(path, base.as_str(), &facts.siblings) {
                Some(t) => t,
                None => String::from_str(path),
            },
            PathStyle::WorkingDir(pwd) => match diff_paths(path, pwd.as_str()) {
                Some(d) => d,
                None => String::from_str(path),
            },
        }
    }
}

} // verus!
