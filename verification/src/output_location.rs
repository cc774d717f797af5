//! [`OutputLocation`]: where generated data is written.

use std::hash::{Hash, Hasher};
use std::path::Path;
use vstd::prelude::*;
use vstd::std_specs::cmp::PartialEqSpecImpl;

verus! {

/// The path `Path::join` gives for `base` and `path`, as text.
pub uninterp spec fn joined_path(base: Seq<char>, path: Seq<char>) -> Seq<char>;

/// The final component `Path::file_name` gives for `path`, as text.
pub uninterp spec fn path_file_name(path: Seq<char>) -> Option<Seq<char>>;

/// Whether `Path` considers `a` and `b` the same path.
pub uninterp spec fn same_path(a: Seq<char>, b: Seq<char>) -> bool;

/// Calls `==` on the paths `a` and `b`.
///
/// `Path` compares paths by their components, so that `/tmp//x` and
/// `/tmp/x` are the same path; the result follows the path rules of the
/// platform the crate is built for, so it is only named here.
#[verifier::external_body]
fn paths_equal(a: &str, b: &str) -> (r: bool)
    ensures
        r == same_path(a@, b@),
{
    Path::new(a) == Path::new(b)
}

/// Calls `Path::join` on `base` and `path`, and gives the result as text.
///
/// What the result is follows the path rules of the platform the crate is
/// built for (separators, absolute paths), so it is only named here. The
/// result of joining two UTF-8 strings is UTF-8, so the text conversion
/// loses nothing.
#[verifier::external_body]
fn path_join(base: &str, path: &str) -> (r: String)
    ensures
        r@ == joined_path(base@, path@),
{
    Path::new(base).join(path).to_string_lossy().into_owned()
}

/// Calls `Path::file_name` on `path`, and gives the result as text.
///
/// The final component follows the path rules of the platform the crate is
/// built for, so it is only named here.
#[verifier::external_body]
fn file_name(path: &str) -> (r: Option<String>)
    ensures
        match (r, path_file_name(path@)) {
            (Some(name), Some(spec_name)) => name@ == spec_name,
            (None, None) => true,
            _ => false,
        },
{
    Path::new(path).file_name().map(|name| name.to_string_lossy().into_owned())
}

/// Where generated data is written: the filesystem, or stdout.
#[derive(Debug, Clone)]
pub enum OutputLocation {
    /// Output to a file in the specified directory
    File {
        path: String,
        /// Whether existing files at or under `path` are overwritten
        overwrite: bool,
    },
    /// Output to stdout
    Stdout,
}

impl PartialEq for OutputLocation {
    /// Two locations are equal when both are stdout, or both are the same
    /// path with the same `overwrite`.
    fn eq(&self, other: &Self) -> (r: bool) {
        match (self, other) {
            (
                OutputLocation::File { path: a, overwrite: overwrite_a },
                OutputLocation::File { path: b, overwrite: overwrite_b },
            ) => *overwrite_a == *overwrite_b && paths_equal(a.as_str(), b.as_str()),
            (OutputLocation::Stdout, OutputLocation::Stdout) => true,
            _ => false,
        }
    }
}

impl PartialEqSpecImpl for OutputLocation {
    open spec fn obeys_eq_spec() -> bool {
        true
    }

    open spec fn eq_spec(&self, other: &Self) -> bool {
        match (self, other) {
            (
                OutputLocation::File { path: a, overwrite: overwrite_a },
                OutputLocation::File { path: b, overwrite: overwrite_b },
            ) => *overwrite_a == *overwrite_b && same_path(a@, b@),
            (OutputLocation::Stdout, OutputLocation::Stdout) => true,
            _ => false,
        }
    }
}

impl Eq for OutputLocation {}

impl Hash for OutputLocation {
    /// Hashes a file location by its path as `Path` hashes it, so that equal
    /// locations hash alike.
    #[verifier::external_body]
    fn hash<H: Hasher>(&self, state: &mut H) {
        match self {
            OutputLocation::File { path, overwrite } => {
                0u8.hash(state);
                Path::new(path).hash(state);
                overwrite.hash(state);
            },
            OutputLocation::Stdout => 1u8.hash(state),
        }
    }
}

/// What writing to a location does, once it is known whether its path
/// already exists.
#[derive(Debug, Clone, Copy, PartialEq, Eq, Structural)]
pub enum WriteAction {
    /// Write to stdout.
    Stdout,
    /// Leave the existing file as it is, and write nothing.
    Skip,
    /// Write to a temporary file next to the path, then rename it.
    File,
}

impl OutputLocation {
    /// The path of a file location, as text.
    pub open spec fn spec_path(&self) -> Option<Seq<char>> {
        match self {
            OutputLocation::File { path, .. } => Some(path@),
            OutputLocation::Stdout => None,
        }
    }

    /// Return the location selected on the command line: stdout when
    /// `--stdout` was given, and `output_dir` otherwise.
    pub fn new(stdout: bool, output_dir: String, overwrite: bool) -> (r: Self)
        ensures
            stdout ==> r is Stdout,
            !stdout ==> (r matches OutputLocation::File { path, overwrite: o } && path@
                == output_dir@ && o == overwrite),
    {
        if stdout {
            Self::Stdout
        } else {
            Self::File { path: output_dir, overwrite }
        }
    }

    /// Return the location of `path` within this output.
    ///
    /// [`Self::Stdout`] has no path to join onto, so it is returned unchanged.
    pub fn join(&self, path: &str) -> (r: Self)
        ensures
            match self {
                OutputLocation::File { path: base, overwrite } => (r matches OutputLocation::File {
                    path: joined,
                    overwrite: o,
                } && joined@ == joined_path(base@, path@) && o == overwrite),
                OutputLocation::Stdout => r is Stdout,
            },
    {
        match self {
            Self::File { path: base, overwrite } => Self::File {
                path: path_join(base.as_str(), path),
                overwrite: *overwrite,
            },
            Self::Stdout => Self::Stdout,
        }
    }

    /// Return true if this location is a path with nothing in it (`-o ""`),
    /// which names no directory.
    pub fn is_empty_dir(&self) -> (r: bool)
        ensures
            r == (self.spec_path() matches Some(p) && p.len() == 0),
    {
        match self {
            Self::File { path, .. } => path.as_str().is_empty(),
            Self::Stdout => false,
        }
    }

    /// What writing to this location does: stdout is always written, a
    /// file is skipped if it already exists and `overwrite` is not set, and
    /// otherwise written.
    pub fn write_action(&self, path_exists: bool) -> (r: WriteAction)
        ensures
            match self {
                OutputLocation::Stdout => r == WriteAction::Stdout,
                OutputLocation::File { overwrite, .. } => if !*overwrite && path_exists {
                    r == WriteAction::Skip
                } else {
                    r == WriteAction::File
                },
            },
    {
        match self {
            Self::Stdout => WriteAction::Stdout,
            Self::File { overwrite, .. } => {
                if !*overwrite && path_exists {
                    WriteAction::Skip
                } else {
                    WriteAction::File
                }
            },
        }
    }

    /// How this location is shown: the file name only, not the full path
    /// (the whole path where it has no file name), or `Stdout`.
    pub fn display_name(&self) -> (r: String)
        ensures
            match self {
                OutputLocation::File { path, .. } => match path_file_name(path@) {
                    Some(name) => r@ == name,
                    None => r@ == path@,
                },
                OutputLocation::Stdout => r@ == "Stdout"@,
            },
    {
        match self {
            Self::File { path, .. } => match file_name(path.as_str()) {
                Some(name) => name,
                None => path.clone(),
            },
            Self::Stdout => "Stdout".to_owned(),
        }
    }
}

} // verus!
