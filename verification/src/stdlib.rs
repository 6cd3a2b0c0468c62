//! The ETDL standard library and library resolution: library kinds,
//! resolution errors and version compatibility.

use vstd::prelude::*;
use crate::text::{leading_major, parse_leading_major, owned, cat, cat3, cat5, cat7, cat9};

verus! {

/// Schema identity of the built-in standard library package.
pub const STDLIB_SCHEMA: &'static str = "etdl.stdlib/1.0";

/// The reserved namespace prefix of the built-in standard library.
pub const STD_NAMESPACE: &'static str = "std.";

/// Where a resolved library's definitions came from.
#[derive(Debug, Clone, Copy, PartialEq, Eq, Structural)]
pub enum LibraryKind {
    /// Embedded in the compiler (`std.*`).
    BuiltIn,
    /// Found on a configured library search path.
    Optional,
    /// Found relative to the importing document.
    User,
}

pub open spec fn kind_label(k: LibraryKind) -> Seq<char> {
    match k {
        LibraryKind::BuiltIn => "built-in"@,
        LibraryKind::Optional => "optional"@,
        LibraryKind::User => "user"@,
    }
}

impl LibraryKind {
    pub fn label(self) -> (s: &'static str)
        ensures
            s@ == kind_label(self),
    {
        match self {
            LibraryKind::BuiltIn => "built-in",
            LibraryKind::Optional => "optional",
            LibraryKind::User => "user",
        }
    }
}

/// Identity of one resolved library, for build-manifest provenance.
#[derive(Debug, Clone)]
pub struct LibraryProvenance {
    pub name: String,
    pub version: String,
    pub kind: String,
}

impl LibraryProvenance {
    /// The provenance record of a library resolved as `name` at `version`
    /// from a source of kind `kind`.
    pub fn of(name: &str, version: &str, kind: LibraryKind) -> (p: LibraryProvenance)
        ensures
            p.name@ == name@,
            p.version@ == version@,
            p.kind@ == kind_label(kind),
    {
        LibraryProvenance { name: owned(name), version: owned(version), kind: owned(kind.label()) }
    }
}

/// A problem resolving a declared library.
#[derive(Debug, Clone)]
pub enum LibraryError {
    NotFound { name: String, searched: String },
    IncompatibleVersion { name: String, requested: String, found: String },
    Cyclic { chain: Vec<String> },
    InvalidManifest { name: String, reason: String },
    Shadowing { name: String, prefix: String },
}

/// `parts` joined with `sep` between consecutive parts.
pub open spec fn join(parts: Seq<Seq<char>>, sep: Seq<char>) -> Seq<char>
    decreases parts.len(),
{
    if parts.len() == 0 {
        Seq::empty()
    } else if parts.len() == 1 {
        parts[0]
    } else {
        join(parts.drop_last(), sep) + sep + parts.last()
    }
}

/// The text of a library error.
pub open spec fn library_error_text(e: LibraryError) -> Seq<char> {
    match e {
        LibraryError::NotFound { name, searched } => "library '"@ + name@ + "' was not found ("@
            + searched@ + ")"@,
        LibraryError::IncompatibleVersion { name, requested, found } => "library '"@ + name@
            + "': requested version '"@ + requested@
            + "' is incompatible with the resolved version '"@ + found@
            + "' (major version must match)"@,
        LibraryError::Cyclic { chain } => "cyclic library dependency: "@ + join(
            chain@.map_values(|s: String| s@),
            " -> "@,
        ),
        LibraryError::InvalidManifest { name, reason } => "library '"@ + name@ + "': "@ + reason@,
        LibraryError::Shadowing { name, prefix } => "library '"@ + name@
            + "' is reserved for the built-in standard library ('"@ + prefix@
            + "' prefix) and cannot be resolved from an optional or user source"@,
    }
}

/// `parts` joined with `sep`.
pub fn join_strings(parts: &Vec<String>, sep: &str) -> (r: String)
    ensures
        r@ == join(parts@.map_values(|s: String| s@), sep@),
{
    let ghost ps = parts@.map_values(|s: String| s@);
    if parts.len() == 0 {
        proof {
            reveal_strlit("");
        }
        return owned("");
    }
    let mut r = owned(parts[0].as_str());
    let mut i: usize = 1;
    proof {
        reveal_with_fuel(join, 2);
        assert(ps.take(1).drop_last() =~= Seq::<Seq<char>>::empty());
        assert(join(ps.take(1), sep@) == ps[0]);
    }
    while i < parts.len()
        invariant
            1 <= i <= parts@.len(),
            ps == parts@.map_values(|s: String| s@),
            r@ == join(ps.take(i as int), sep@),
        decreases parts.len() - i,
    {
        r = cat3(r.as_str(), sep, parts[i].as_str());
        proof {
            let t = ps.take(i + 1);
            assert(t.drop_last() =~= ps.take(i as int));
            assert(t.last() == ps[i as int]);
        }
        i = i + 1;
    }
    assert(ps.take(parts@.len() as int) =~= ps);
    r
}

impl LibraryError {
    /// The error's text.
    pub fn message(&self) -> (s: String)
        ensures
            s@ == library_error_text(*self),
    {
        match self {
            LibraryError::NotFound { name, searched } => cat5(
                "library '",
                name.as_str(),
                "' was not found (",
                searched.as_str(),
                ")",
            ),
            LibraryError::IncompatibleVersion { name, requested, found } => cat7(
                "library '",
                name.as_str(),
                "': requested version '",
                requested.as_str(),
                "' is incompatible with the resolved version '",
                found.as_str(),
                "' (major version must match)",
            ),
            LibraryError::Cyclic { chain } => cat(
                "cyclic library dependency: ",
                join_strings(chain, " -> ").as_str(),
            ),
            LibraryError::InvalidManifest { name, reason } => cat3(
                "library '",
                name.as_str(),
                "': ",
            ).concat(reason.as_str()),
            LibraryError::Shadowing { name, prefix } => cat5(
                "library '",
                name.as_str(),
                "' is reserved for the built-in standard library ('",
                prefix.as_str(),
                "' prefix) and cannot be resolved from an optional or user source",
            ),
        }
    }
}

/// The major component of a dotted version string (`"1.2"` gives `Some(1)`).
pub fn major_version(version: &str) -> (r: Option<u64>)
    ensures
        r == leading_major(version@),
{
    parse_leading_major(version)
}

/// Whether two versions are compatible: both have a major component and
/// the majors are equal.
pub open spec fn compatible(requested: Seq<char>, found: Seq<char>) -> bool {
    &&& leading_major(requested) is Some
    &&& leading_major(found) is Some
    &&& leading_major(requested) == leading_major(found)
}

/// Check that the version `found` satisfies `requested`: the majors must
/// match; otherwise `IncompatibleVersion`.
pub fn check_version_compatible(name: &str, requested: &str, found: &str) -> (r: Result<
    (),
    LibraryError,
>)
    ensures
        r is Ok <==> compatible(requested@, found@),
        r matches Err(LibraryError::IncompatibleVersion { name: n, requested: q, found: f }) ==> n@
            == name@ && q@ == requested@ && f@ == found@,
        r is Err ==> r->Err_0 is IncompatibleVersion,
{
    match (major_version(requested), major_version(found)) {
        (Some(a), Some(b)) => {
            if a == b {
                return Ok(());
            }
        },
        _ => {},
    }
    Err(
        LibraryError::IncompatibleVersion {
            name: owned(name),
            requested: owned(requested),
            found: owned(found),
        },
    )
}

/// The names of the built-in standard library modules.
pub open spec fn builtin_library_names() -> Seq<Seq<char>> {
    seq!["std.events"@, "std.logic"@, "std.probability"@]
}

/// Resolves declared libraries: the optional-library search directories,
/// checked in order (never for `std.*`).
#[derive(Debug, Clone)]
pub struct LibraryResolver {
    pub search_paths: Vec<String>,
}

impl LibraryResolver {
    pub fn new() -> (r: LibraryResolver)
        ensures
            r.search_paths@.len() == 0,
    {
        LibraryResolver { search_paths: Vec::new() }
    }

    /// The resolver with `path` appended to its search path.
    pub fn with_search_path(self, path: String) -> (r: LibraryResolver)
        ensures
            r.search_paths@ == self.search_paths@.push(path),
    {
        let mut r = self;
        r.search_paths.push(path);
        r
    }

    /// Names of every built-in standard library module.
    pub fn builtin_names() -> (r: Vec<String>)
        ensures
            r@.map_values(|s: String| s@) == builtin_library_names(),
    {
        let mut r: Vec<String> = Vec::new();
        r.push(owned("std.events"));
        r.push(owned("std.logic"));
        r.push(owned("std.probability"));
        assert(r@.map_values(|s: String| s@) =~= builtin_library_names());
        r
    }
}

} // verus!
