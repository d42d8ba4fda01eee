//! Planning the creation of parent directories with capability-based I/O.
//!
//! Capability-based file systems open a base directory with ambient
//! authority and create paths relative to it. A parent path is split by its
//! first component, as `std::path::Path::components` reads it on the
//! platform at hand: a Windows drive or UNC prefix gives the prefix and a
//! separator as the base directory, a root gives the root, and the path
//! that remains after them (as `Path::strip_prefix` gives it) is the
//! relative part; any other path is resolved from the current directory.
//! The caller opens the base directory and creates the relative path.

use std::path::{Component, Path};

use vstd::prelude::*;

use crate::text::{chars_of, push_char};

verus! {

/// A component of a path (`std::path::Component`), its text kept as a
/// string.
#[derive(Debug, Clone, PartialEq, Eq)]
pub enum PathPart {
    /// A Windows drive or UNC prefix, such as `C:`.
    Prefix(String),
    /// The root directory.
    Root,
    /// A `.`.
    CurDir,
    /// A `..`.
    ParentDir,
    /// A file or directory name.
    Normal(String),
}

/// The reading of a path: each component with the text of the path that
/// remains after it.
pub type Reading = Seq<(PathPart, Seq<char>)>;

/// The abstract content of a reading.
pub open spec fn reading_model(r: Seq<(PathPart, String)>) -> Reading {
    r.map_values(|p: (PathPart, String)| (p.0, p.1@))
}

/// What holds of the components of any path on any platform: a prefix
/// comes only first, a root only first or right after a prefix, and names
/// are not empty.
pub open spec fn parts_wellformed(r: Reading) -> bool {
    &&& forall|i: int| 0 < i < r.len() ==> !((#[trigger] r[i]).0 is Prefix)
    &&& forall|i: int|
        0 <= i < r.len() && (#[trigger] r[i]).0 is Root ==> i == 0 || (i == 1 && r[0].0 is Prefix)
    &&& forall|i: int|
        0 <= i < r.len() && (#[trigger] r[i]).0 is Normal ==> r[i].0->Normal_0@.len() > 0
}

/// A non-empty path without `/`, `\` or `:`: a single name, `.` or `..`
/// on every platform.
pub open spec fn plain_name(s: Seq<char>) -> bool {
    s.len() > 0 && forall|i: int| 0 <= i < s.len() ==> #[trigger] s[i] != '/' && s[i] != '\\' && s[i]
        != ':'
}

/// A path that starts with a single `/` and holds no `\` or `:`: a root on
/// every platform, with no Windows prefix.
pub open spec fn rooted_plain(s: Seq<char>) -> bool {
    &&& s.len() > 0
    &&& s[0] == '/'
    &&& !(s.len() > 1 && s[1] == '/')
    &&& forall|i: int| 0 <= i < s.len() ==> #[trigger] s[i] != '\\' && s[i] != ':'
}

/// `s` without leading separators and leading `.` components.
pub open spec fn trim_leading_segments(s: Seq<char>) -> Seq<char>
    decreases s.len(),
{
    if s.len() > 0 && s[0] == '/' {
        trim_leading_segments(s.drop_first())
    } else if s == seq!['.'] {
        Seq::empty()
    } else if s.len() >= 2 && s[0] == '.' && s[1] == '/' {
        trim_leading_segments(s.skip(2))
    } else {
        s
    }
}

/// `s` without trailing separators and trailing `.` components.
pub open spec fn trim_trailing_segments(s: Seq<char>) -> Seq<char>
    decreases s.len(),
{
    if s.len() > 0 && s.last() == '/' {
        trim_trailing_segments(s.drop_last())
    } else if s == seq!['.'] {
        Seq::empty()
    } else if s.len() >= 2 && s.last() == '.' && s[s.len() - 2] == '/' {
        trim_trailing_segments(s.take(s.len() - 2))
    } else {
        s
    }
}

/// The path below the root, for the text `s` after a leading `/` (as
/// `Components::as_path` gives it): without leading and trailing
/// separators and `.` components.
pub open spec fn below_root(s: Seq<char>) -> Seq<char> {
    trim_trailing_segments(trim_leading_segments(s))
}

/// The components of a path, each with the text of the path that remains
/// after it, as `std::path::Path::components` and `Components::as_path`
/// read them on this platform. Which components a text has depends on the
/// platform (Windows reads prefixes, `\` separators and verbatim paths,
/// Unix does not), so only what holds on every platform is stated: see
/// [`parts_wellformed`]; an empty path has no components; a single name
/// (see [`plain_name`]) is one component, neither prefix nor root; and a
/// path starting with a single `/` (see [`rooted_plain`]) starts with a root
/// followed by [`below_root`] of the rest.
#[verifier::external_body]
fn path_components(path: &str) -> (result: Vec<(PathPart, String)>)
    ensures
        parts_wellformed(reading_model(result@)),
        path@.len() == 0 ==> result@.len() == 0,
        plain_name(path@) ==> result@.len() == 1 && !(result@[0].0 is Prefix) && !(result@[0].0 is Root),
        rooted_plain(path@) ==> result@.len() >= 1 && result@[0].0 is Root && result@[0].1@ == below_root(
            path@.drop_first(),
        ),
{
    let mut parts = Vec::new();
    let mut components = Path::new(path).components();
    while let Some(component) = components.next() {
        let part = match component {
            Component::Prefix(p) => PathPart::Prefix(p.as_os_str().to_string_lossy().into_owned()),
            Component::RootDir => PathPart::Root,
            Component::CurDir => PathPart::CurDir,
            Component::ParentDir => PathPart::ParentDir,
            Component::Normal(name) => PathPart::Normal(name.to_string_lossy().into_owned()),
        };
        parts.push((part, components.as_path().to_string_lossy().into_owned()));
    }
    parts
}

/// `std::path::MAIN_SEPARATOR`, the separator of this platform: `/` on
/// Unix, `\` on Windows.
#[verifier::external_body]
fn main_separator() -> (result: char)
    ensures
        result == '/' || result == '\\',
{
    std::path::MAIN_SEPARATOR
}

/// The base directory and the relative path of a parent path with the
/// given reading and separator: for a prefix, the prefix and a separator,
/// and the path remaining after the prefix and its root; for a root, the
/// separator and the path remaining after it; otherwise the current
/// directory and the whole path.
pub open spec fn spec_split(parent: Seq<char>, r: Reading, sep: char) -> (Seq<char>, Seq<char>) {
    if r.len() > 0 && r[0].0 is Prefix {
        let rest = if r.len() > 1 && r[1].0 is Root {
            r[1].1
        } else {
            r[0].1
        };
        (r[0].0->Prefix_0@.push(sep), rest)
    } else if r.len() > 0 && r[0].0 is Root {
        (seq![sep], r[0].1)
    } else {
        ("."@, parent)
    }
}

/// Whether `r` and `sep` agree with all that is stated of the platform's
/// reading of `parent` (see [`path_components`]) and of its separator
/// (see [`main_separator`]).
pub open spec fn consistent_reading(parent: Seq<char>, r: Reading, sep: char) -> bool {
    &&& parts_wellformed(r)
    &&& parent.len() == 0 ==> r.len() == 0
    &&& plain_name(parent) ==> r.len() == 1 && !(r[0].0 is Prefix) && !(r[0].0 is Root)
    &&& rooted_plain(parent) ==> r.len() >= 1 && r[0].0 is Root && r[0].1 == below_root(parent.drop_first())
    &&& sep == '/' || sep == '\\'
}

/// Split a parent path, given its reading and the platform separator, into
/// the base directory to open and the relative path to create below it
/// (see [`spec_split`]).
pub fn split_parts(parent: &str, reading: &Vec<(PathPart, String)>, sep: char) -> (result: (String, String))
    ensures
        (result.0@, result.1@) == spec_split(parent@, reading_model(reading@), sep),
{
    let ghost r = reading_model(reading@);
    if reading.len() > 0 {
        assert(r[0] == (reading@[0].0, reading@[0].1@));
        match &reading[0].0 {
            PathPart::Prefix(prefix) => {
                let mut base = prefix.clone();
                push_char(&mut base, sep);
                if reading.len() > 1 && matches!(reading[1].0, PathPart::Root) {
                    assert(r[1] == (reading@[1].0, reading@[1].1@));
                    return (base, reading[1].1.clone());
                }
                return (base, reading[0].1.clone());
            },
            PathPart::Root => {
                let mut base = String::new();
                push_char(&mut base, sep);
                assert(base@ =~= seq![sep]);
                return (base, reading[0].1.clone());
            },
            _ => {},
        }
    }
    proof {
        reveal_strlit(".");
    }
    (String::from_str("."), String::from_str(parent))
}

/// The base directory and relative part of a parent path: a single name
/// resolves from the current directory, a path starting with a single `/`
/// splits into a one-character separator and the path below the root.
pub open spec fn split_facts(parent: Seq<char>, base: Seq<char>, relative: Seq<char>) -> bool {
    &&& plain_name(parent) ==> base == "."@ && relative == parent
    &&& rooted_plain(parent) ==> base.len() == 1 && (base[0] == '/' || base[0] == '\\') && relative
        == below_root(parent.drop_first())
}

/// Split a parent path into the base directory to open and the relative
/// path to create below it, reading its components on this platform: the
/// result is [`spec_split`] of a reading consistent with the text (see
/// [`consistent_reading`]); in particular [`split_facts`] hold.
pub fn base_dir_and_relative(parent: &str) -> (result: (String, String))
    ensures
        exists|r: Reading, sep: char|
            consistent_reading(parent@, r, sep) && (result.0@, result.1@) == #[trigger] spec_split(
                parent@,
                r,
                sep,
            ),
        split_facts(parent@, result.0@, result.1@),
{
    let reading = path_components(parent);
    let sep = main_separator();
    let result = split_parts(parent, &reading, sep);
    assert(consistent_reading(parent@, reading_model(reading@), sep));
    assert((result.0@, result.1@) == spec_split(parent@, reading_model(reading@), sep));
    proof {
        reveal_strlit(".");
    }
    result
}

/// What creating the parent directory takes once the parent is split:
/// nothing when the relative part is empty, else the split.
pub open spec fn plan_of_split(split: (Seq<char>, Seq<char>)) -> Option<(Seq<char>, Seq<char>)> {
    if split.1.len() == 0 {
        None
    } else {
        Some(split)
    }
}

/// The view of a planned pair of strings.
pub open spec fn plan_view(plan: Option<(String, String)>) -> Option<(Seq<char>, Seq<char>)> {
    match plan {
        None => None,
        Some((base, relative)) => Some((base@, relative@)),
    }
}

/// Plan the creation of a parent directory, given that parent (`None` when
/// the path has none): nothing for no parent, an empty parent or the root
/// `/`; otherwise [`plan_of_split`] of the parent's split, read on this
/// platform. A single name is created from the current directory; a path
/// starting with a single `/` is created below the root, unless nothing
/// remains below it.
pub fn parent_dir_plan(parent: Option<&str>) -> (result: Option<(String, String)>)
    ensures
        match parent {
            None => result is None,
            Some(p) => if p@.len() == 0 || p@ == "/"@ {
                result is None
            } else {
                &&& exists|r: Reading, sep: char|
                    consistent_reading(p@, r, sep) && plan_view(result) == plan_of_split(
                        #[trigger] spec_split(p@, r, sep),
                    )
                &&& plain_name(p@) ==> plan_view(result) == Some(("."@, p@))
                &&& rooted_plain(p@) ==> if below_root(p@.drop_first()).len() == 0 {
                    result is None
                } else {
                    result matches Some((base, relative)) && base@.len() == 1 && (base@[0] == '/'
                        || base@[0] == '\\') && relative@ == below_root(p@.drop_first())
                }
            },
        },
{
    match parent {
        None => None,
        Some(p) => {
            let chars = chars_of(p);
            if chars.len() == 0 {
                return None;
            }
            if chars.len() == 1 && chars[0] == '/' {
                assert(p@ =~= "/"@) by {
                    reveal_strlit("/");
                }
                return None;
            }
            proof {
                reveal_strlit("/");
                reveal_strlit(".");
                if p@ == "/"@ {
                    assert(p@.len() == 1);
                }
            }
            let reading = path_components(p);
            let sep = main_separator();
            let (base, relative) = split_parts(p, &reading, sep);
            assert(consistent_reading(p@, reading_model(reading@), sep));
            let ghost split = spec_split(p@, reading_model(reading@), sep);
            if relative.as_str().unicode_len() == 0 {
                assert(plan_view(None) == plan_of_split(split));
                None
            } else {
                let result = Some((base, relative));
                assert(plan_view(result) == plan_of_split(split));
                result
            }
        },
    }
}

} // verus!
