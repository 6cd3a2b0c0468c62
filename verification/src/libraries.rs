//! Library expansion: resolving the libraries a document imports (with
//! their dependencies, transitively) and deciding which library gates and
//! basic events each fault tree takes in by qualified id.
//!
//! Finding and parsing library files is the caller's part: it hands in a
//! catalog of what loading each library name gave.

use vstd::prelude::*;
use crate::model::{BasicEventEntry, Document, FaultTreeEntry, GateEntry, index_of,
    lemma_index_of, lemma_index_of_is};
use crate::stdlib::{LibraryError, LibraryKind, LibraryProvenance, LibraryResolver, builtin_library_names,
    check_version_compatible, compatible, kind_label};
use crate::text::{owned, same, cat, cat5, starts_with, has_prefix, decimal_string};
use crate::fault_rules::gates_of;
use crate::fault_structure::be_ids;
use crate::model::{FaultTree, gate_entry_ids, gate_position};
use crate::diagnostic::{lemma_flat_map_step, lemma_flat_map_empty, lemma_take_all};

verus! {

/// A library a library depends on.
#[derive(Debug, Clone)]
pub struct LibraryDependency {
    pub name: String,
    pub version: String,
}

/// A parsed library document.
#[derive(Debug, Clone)]
pub struct LibraryDefinition {
    /// The name the library declares for itself.
    pub name: String,
    pub version: String,
    pub description: Option<String>,
    pub depends_on: Vec<LibraryDependency>,
    pub gates: Vec<GateEntry>,
    pub basic_events: Vec<BasicEventEntry>,
}

/// What loading the library named `name` gave: where it was found and its
/// definition, or why it could not be had.
#[derive(Debug)]
pub struct CatalogEntry {
    pub name: String,
    pub loaded: Result<(LibraryKind, LibraryDefinition), LibraryError>,
}

/// The value of a [`LibraryError`].
pub enum LibraryErrorView {
    NotFound { name: Seq<char>, searched: Seq<char> },
    IncompatibleVersion { name: Seq<char>, requested: Seq<char>, found: Seq<char> },
    Cyclic { chain: Seq<Seq<char>> },
    InvalidManifest { name: Seq<char>, reason: Seq<char> },
    Shadowing { name: Seq<char>, prefix: Seq<char> },
}

impl View for LibraryError {
    type V = LibraryErrorView;

    open spec fn view(&self) -> LibraryErrorView {
        match *self {
            LibraryError::NotFound { name, searched } => LibraryErrorView::NotFound {
                name: name@,
                searched: searched@,
            },
            LibraryError::IncompatibleVersion { name, requested, found } =>
                LibraryErrorView::IncompatibleVersion {
                name: name@,
                requested: requested@,
                found: found@,
            },
            LibraryError::Cyclic { chain } => LibraryErrorView::Cyclic {
                chain: chain@.map_values(|s: String| s@),
            },
            LibraryError::InvalidManifest { name, reason } => LibraryErrorView::InvalidManifest {
                name: name@,
                reason: reason@,
            },
            LibraryError::Shadowing { name, prefix } => LibraryErrorView::Shadowing {
                name: name@,
                prefix: prefix@,
            },
        }
    }
}

pub open spec fn error_views(es: Seq<LibraryError>) -> Seq<LibraryErrorView> {
    es.map_values(|e: LibraryError| e@)
}

fn copy_strings(xs: &Vec<String>) -> (r: Vec<String>)
    ensures
        r@.map_values(|s: String| s@) == xs@.map_values(|s: String| s@),
{
    let mut r: Vec<String> = Vec::new();
    let mut i: usize = 0;
    while i < xs.len()
        invariant
            i <= xs@.len(),
            r@.map_values(|s: String| s@) == xs@.take(i as int).map_values(|s: String| s@),
        decreases xs.len() - i,
    {
        let ghost before = r@;
        let s = owned(xs[i].as_str());
        r.push(s);
        proof {
            assert(r@.map_values(|s: String| s@) =~= before.map_values(|s: String| s@).push(s@));
            assert(xs@.take(i as int + 1) =~= xs@.take(i as int).push(xs@[i as int]));
            assert(xs@.take(i as int + 1).map_values(|s: String| s@) =~= xs@.take(i as int).map_values(
                |s: String| s@,
            ).push(xs@[i as int]@));
        }
        i = i + 1;
    }
    assert(xs@.take(xs@.len() as int) =~= xs@);
    r
}

fn copy_error(e: &LibraryError) -> (c: LibraryError)
    ensures
        c@ == e@,
{
    match e {
        LibraryError::NotFound { name, searched } => LibraryError::NotFound {
            name: owned(name.as_str()),
            searched: owned(searched.as_str()),
        },
        LibraryError::IncompatibleVersion { name, requested, found } => LibraryError::IncompatibleVersion {
            name: owned(name.as_str()),
            requested: owned(requested.as_str()),
            found: owned(found.as_str()),
        },
        LibraryError::Cyclic { chain } => LibraryError::Cyclic { chain: copy_strings(chain) },
        LibraryError::InvalidManifest { name, reason } => LibraryError::InvalidManifest {
            name: owned(name.as_str()),
            reason: owned(reason.as_str()),
        },
        LibraryError::Shadowing { name, prefix } => LibraryError::Shadowing {
            name: owned(name.as_str()),
            prefix: owned(prefix.as_str()),
        },
    }
}

pub open spec fn catalog_names(cat: Seq<CatalogEntry>) -> Seq<Seq<char>> {
    cat.map_values(|c: CatalogEntry| c.name@)
}

/// The error for a library name the catalog does not list.
pub open spec fn unlisted_error(name: Seq<char>) -> LibraryErrorView {
    LibraryErrorView::NotFound { name, searched: "no catalog entry"@ }
}

/// The error for a library whose document declares another name.
pub open spec fn misnamed_error(name: Seq<char>, declared: Seq<char>) -> LibraryErrorView {
    LibraryErrorView::InvalidManifest {
        name,
        reason: "declares name '"@ + declared + "' but was resolved as '"@ + name + "'"@,
    }
}

/// What loading `name` gives: the index of its catalog entry (the first
/// for that name) when it loaded under that name, else the error.
pub open spec fn load_outcome(cat: Seq<CatalogEntry>, name: Seq<char>) -> Result<int, LibraryErrorView> {
    let i = index_of(catalog_names(cat), name);
    if i >= cat.len() {
        Err(unlisted_error(name))
    } else {
        match cat[i].loaded {
            Err(e) => Err(e@),
            Ok((_, d)) => if d.name@ == name {
                Ok(i)
            } else {
                Err(misnamed_error(name, d.name@))
            },
        }
    }
}

/// The definition of a catalog entry known to have loaded.
pub open spec fn definition(cat: Seq<CatalogEntry>, i: int) -> LibraryDefinition {
    cat[i].loaded->Ok_0.1
}

pub open spec fn entry_kind(cat: Seq<CatalogEntry>, i: int) -> LibraryKind {
    cat[i].loaded->Ok_0.0
}

/// A resolved library: its name, version, where it came from, and its
/// catalog entry.
#[derive(Debug, Clone)]
pub struct ResolvedLibrary {
    pub name: String,
    pub version: String,
    pub kind: LibraryKind,
    pub entry: usize,
}

pub struct ResolvedView {
    pub name: Seq<char>,
    pub version: Seq<char>,
    pub kind: LibraryKind,
    pub entry: int,
}

impl View for ResolvedLibrary {
    type V = ResolvedView;

    open spec fn view(&self) -> ResolvedView {
        ResolvedView { name: self.name@, version: self.version@, kind: self.kind, entry: self.entry as int }
    }
}

impl ResolvedLibrary {
    /// The library's identity for build provenance: name, version and the
    /// label of where it came from.
    pub fn provenance(&self) -> (p: LibraryProvenance)
        ensures
            p.name@ == self.name@,
            p.version@ == self.version@,
            p.kind@ == kind_label(self.kind),
    {
        LibraryProvenance::of(self.name.as_str(), self.version.as_str(), self.kind)
    }
}

pub open spec fn resolved_views(rs: Seq<ResolvedLibrary>) -> Seq<ResolvedView> {
    rs.map_values(|r: ResolvedLibrary| r@)
}

pub open spec fn resolved_names(rs: Seq<ResolvedView>) -> Seq<Seq<char>> {
    rs.map_values(|r: ResolvedView| r.name)
}

/// How many leading names of `names` sort before `x`.
pub open spec fn insertion_point(names: Seq<Seq<char>>, x: Seq<char>) -> int
    decreases names.len(),
{
    if names.len() == 0 {
        0
    } else if crate::text::lex_lt(names[0], x) {
        1 + insertion_point(names.drop_first(), x)
    } else {
        0
    }
}

/// `rs` with `r` inserted at its place in name order.
pub open spec fn insert_by_name(rs: Seq<ResolvedView>, r: ResolvedView) -> Seq<ResolvedView> {
    let k = insertion_point(resolved_names(rs), r.name);
    rs.take(k) + seq![r] + rs.skip(k)
}

/// Resolution so far: the resolved libraries in name order, and the errors
/// in the order found.
pub struct ResolutionView {
    pub resolved: Seq<ResolvedView>,
    pub errors: Seq<LibraryErrorView>,
}

pub open spec fn with_error(st: ResolutionView, e: LibraryErrorView) -> ResolutionView {
    ResolutionView { resolved: st.resolved, errors: st.errors.push(e) }
}

pub open spec fn version_error(name: Seq<char>, requested: Seq<char>, found: Seq<char>) -> LibraryErrorView {
    LibraryErrorView::IncompatibleVersion { name, requested, found }
}

/// Resolve library `name` at version `ver`, with the libraries in `stack`
/// being resolved around it: a name already on the stack is a cycle; one
/// already resolved is checked for version compatibility; otherwise it is
/// loaded, checked, recorded, and its dependencies resolved in turn.
pub open spec fn resolve_library(
    cat: Seq<CatalogEntry>,
    name: Seq<char>,
    ver: Seq<char>,
    stack: Seq<Seq<char>>,
    st: ResolutionView,
) -> ResolutionView
    decreases cat.len() - stack.len(), 0int,
{
    if stack.contains(name) {
        with_error(st, LibraryErrorView::Cyclic { chain: stack.push(name) })
    } else if resolved_names(st.resolved).contains(name) {
        let found = st.resolved[index_of(resolved_names(st.resolved), name)].version;
        if compatible(ver, found) {
            st
        } else {
            with_error(st, version_error(name, ver, found))
        }
    } else {
        match load_outcome(cat, name) {
            Err(e) => with_error(st, e),
            Ok(i) => if stack.len() >= cat.len() {
                st
            } else {
                let d = definition(cat, i);
                let st1 = if compatible(ver, d.version@) {
                    st
                } else {
                    with_error(st, version_error(name, ver, d.version@))
                };
                let st2 = ResolutionView {
                    resolved: insert_by_name(
                        st1.resolved,
                        ResolvedView { name, version: d.version@, kind: entry_kind(cat, i), entry: i },
                    ),
                    errors: st1.errors,
                };
                resolve_dependencies(cat, d.depends_on@, 0, stack.push(name), st2)
            },
        }
    }
}

/// Resolve dependencies `k..` of `deps` in order.
pub open spec fn resolve_dependencies(
    cat: Seq<CatalogEntry>,
    deps: Seq<LibraryDependency>,
    k: int,
    stack: Seq<Seq<char>>,
    st: ResolutionView,
) -> ResolutionView
    decreases cat.len() - stack.len(), deps.len() - k + 1,
{
    if k < 0 || k >= deps.len() {
        st
    } else {
        resolve_dependencies(
            cat,
            deps,
            k + 1,
            stack,
            resolve_library(cat, deps[k].name@, deps[k].version@, stack, st),
        )
    }
}

} // verus!

verus! {

/// Every resolved library names a catalog entry that loaded.
pub open spec fn resolved_ok(cat: Seq<CatalogEntry>, rs: Seq<ResolvedView>) -> bool {
    forall|k: int| 0 <= k < rs.len() ==> 0 <= (#[trigger] rs[k]).entry < cat.len() && cat[rs[k].entry].loaded is Ok
}

pub open spec fn string_seq(xs: Seq<String>) -> Seq<Seq<char>> {
    xs.map_values(|s: String| s@)
}

/// The libraries being resolved are distinct, each a name the catalog lists.
pub open spec fn stack_ok(cat: Seq<CatalogEntry>, stack: Seq<Seq<char>>) -> bool {
    &&& stack.no_duplicates()
    &&& forall|k: int| 0 <= k < stack.len() ==> catalog_names(cat).contains(#[trigger] stack[k])
}

/// Distinct names, each a catalog name, are no more than the catalog's entries.
proof fn lemma_stack_bounded(cat: Seq<CatalogEntry>, stack: Seq<Seq<char>>)
    requires
        stack_ok(cat, stack),
    ensures
        stack.len() <= cat.len(),
{
    let c = catalog_names(cat);
    stack.unique_seq_to_set();
    c.lemma_cardinality_of_set();
    vstd::seq_lib::seq_to_set_is_finite(c);
    assert(stack.to_set().subset_of(c.to_set())) by {
        assert forall|x: Seq<char>| stack.to_set().contains(x) implies c.to_set().contains(x) by {
            let k = choose|k: int| 0 <= k < stack.len() && stack[k] == x;
            assert(c.contains(stack[k]));
        }
    }
    vstd::set_lib::lemma_len_subset(stack.to_set(), c.to_set());
}

/// The position of the first entry named `name`, or the number of entries.
fn catalog_position(cat: &Vec<CatalogEntry>, name: &str) -> (r: usize)
    ensures
        r == index_of(catalog_names(cat@), name@),
{
    let ghost ids = catalog_names(cat@);
    let mut i: usize = 0;
    while i < cat.len()
        invariant
            i <= cat@.len(),
            ids == catalog_names(cat@),
            forall|j: int| 0 <= j < i ==> ids[j] != name@,
        decreases cat.len() - i,
    {
        if same(cat[i].name.as_str(), name) {
            proof {
                lemma_index_of_is(ids, name@, i as int);
            }
            return i;
        }
        i = i + 1;
    }
    proof {
        lemma_index_of_is(ids, name@, i as int);
    }
    i
}

fn resolved_position(rs: &Vec<ResolvedLibrary>, name: &str) -> (r: usize)
    ensures
        r == index_of(resolved_names(resolved_views(rs@)), name@),
{
    let ghost ids = resolved_names(resolved_views(rs@));
    let mut i: usize = 0;
    while i < rs.len()
        invariant
            i <= rs@.len(),
            ids == resolved_names(resolved_views(rs@)),
            forall|j: int| 0 <= j < i ==> ids[j] != name@,
        decreases rs.len() - i,
    {
        if same(rs[i].name.as_str(), name) {
            proof {
                lemma_index_of_is(ids, name@, i as int);
            }
            return i;
        }
        i = i + 1;
    }
    proof {
        lemma_index_of_is(ids, name@, i as int);
    }
    i
}

fn insertion_position(rs: &Vec<ResolvedLibrary>, name: &str) -> (r: usize)
    ensures
        r == insertion_point(resolved_names(resolved_views(rs@)), name@),
        r <= rs@.len(),
{
    let ghost ids = resolved_names(resolved_views(rs@));
    let mut i: usize = 0;
    assert(ids.skip(0) =~= ids);
    while i < rs.len() && crate::text::less_than(rs[i].name.as_str(), name)
        invariant
            i <= rs@.len(),
            ids == resolved_names(resolved_views(rs@)),
            insertion_point(ids, name@) == i + insertion_point(ids.skip(i as int), name@),
        decreases rs.len() - i,
    {
        proof {
            let t = ids.skip(i as int);
            assert(t[0] == ids[i as int]);
            assert(t.drop_first() =~= ids.skip(i as int + 1));
        }
        i = i + 1;
    }
    proof {
        let t = ids.skip(i as int);
        if i < rs.len() {
            assert(t[0] == ids[i as int]);
        } else {
            assert(t.len() == 0);
        }
    }
    i
}

fn push_error(errors: &mut Vec<LibraryError>, e: LibraryError)
    ensures
        error_views(final(errors)@) == error_views(old(errors)@).push(e@),
{
    errors.push(e);
    assert(error_views(errors@) =~= error_views(old(errors)@).push(e@));
}

/// Resolve `name` and everything it depends on; see [`resolve_library`].
fn resolve_transitively(
    cat: &Vec<CatalogEntry>,
    name: &str,
    version: &str,
    resolved: &mut Vec<ResolvedLibrary>,
    stack: &mut Vec<String>,
    errors: &mut Vec<LibraryError>,
)
    requires
        stack_ok(cat@, string_seq(old(stack)@)),
        resolved_ok(cat@, resolved_views(old(resolved)@)),
    ensures
        string_seq(final(stack)@) == string_seq(old(stack)@),
        resolved_ok(cat@, resolved_views(final(resolved)@)),
        resolved_views(final(resolved)@) == resolve_library(
            cat@,
            name@,
            version@,
            string_seq(old(stack)@),
            ResolutionView {
                resolved: resolved_views(old(resolved)@),
                errors: error_views(old(errors)@),
            },
        ).resolved,
        error_views(final(errors)@) == resolve_library(
            cat@,
            name@,
            version@,
            string_seq(old(stack)@),
            ResolutionView {
                resolved: resolved_views(old(resolved)@),
                errors: error_views(old(errors)@),
            },
        ).errors,
    decreases cat@.len() - old(stack)@.len(), 0int,
{
    let ghost st0 = ResolutionView { resolved: resolved_views(resolved@), errors: error_views(errors@) };
    let ghost s0 = string_seq(stack@);
    // A library already being resolved around this one closes a cycle.
    let mut on_stack = false;
    let mut k: usize = 0;
    while k < stack.len()
        invariant
            k <= stack@.len(),
            s0 == string_seq(stack@),
            on_stack == s0.take(k as int).contains(name@),
        decreases stack.len() - k,
    {
        if same(stack[k].as_str(), name) {
            on_stack = true;
        }
        proof {
            let a = s0.take(k as int);
            let b = s0.take(k as int + 1);
            assert(b =~= a.push(s0[k as int]));
            if a.contains(name@) {
                let i = choose|i: int| 0 <= i < a.len() && a[i] == name@;
                assert(b[i] == name@);
            }
            if s0[k as int] == name@ {
                assert(b[k as int] == name@);
            }
            if b.contains(name@) {
                let i = choose|i: int| 0 <= i < b.len() && b[i] == name@;
                if i < k {
                    assert(a[i] == name@);
                }
            }
        }
        k = k + 1;
    }
    assert(s0.take(s0.len() as int) =~= s0);
    if on_stack {
        let mut chain = copy_strings(stack);
        chain.push(owned(name));
        proof {
            assert(string_seq(chain@) =~= s0.push(name@));
        }
        push_error(errors, LibraryError::Cyclic { chain });
        return;
    }
    let r = resolved_position(resolved, name);
    if r < resolved.len() {
        proof {
            lemma_index_of(resolved_names(st0.resolved), name@);
        }
        match check_version_compatible(name, version, resolved[r].version.as_str()) {
            Ok(()) => {},
            Err(e) => {
                push_error(errors, e);
            },
        }
        return;
    }
    proof {
        lemma_index_of(resolved_names(st0.resolved), name@);
    }
    let c = catalog_position(cat, name);
    proof {
        lemma_index_of(catalog_names(cat@), name@);
    }
    if c >= cat.len() {
        push_error(errors, LibraryError::NotFound { name: owned(name), searched: owned("no catalog entry") });
        return;
    }
    match &cat[c].loaded {
        Err(e) => {
            push_error(errors, copy_error(e));
        },
        Ok((kind, d)) => {
            if !same(d.name.as_str(), name) {
                let reason = cat5("declares name '", d.name.as_str(), "' but was resolved as '", name, "'");
                push_error(errors, LibraryError::InvalidManifest { name: owned(name), reason });
                return;
            }
            proof {
                assert(stack_ok(cat@, s0.push(name@))) by {
                    assert forall|a: int, b: int|
                        0 <= a < s0.push(name@).len() && 0 <= b < s0.push(name@).len() && a != b implies
                        s0.push(name@)[a] != s0.push(name@)[b] by {
                        if a < s0.len() && b < s0.len() {
                        } else if a == s0.len() {
                            assert(s0.contains(s0[b]));
                        } else {
                            assert(s0.contains(s0[a]));
                        }
                    }
                    assert(catalog_names(cat@)[c as int] == name@);
                }
                lemma_stack_bounded(cat@, s0.push(name@));
            }
            match check_version_compatible(name, version, d.version.as_str()) {
                Ok(()) => {},
                Err(e) => {
                    push_error(errors, e);
                },
            }
            let at = insertion_position(resolved, name);
            let entry = ResolvedLibrary { name: owned(name), version: owned(d.version.as_str()), kind: *kind, entry: c };
            let ghost before = resolved@;
            resolved.insert(at, entry);
            proof {
                let k = at as int;
                assert(resolved_views(resolved@) =~= resolved_views(before).take(k) + seq![entry@]
                    + resolved_views(before).skip(k));
                assert forall|j: int| 0 <= j < resolved@.len() implies 0 <= (#[trigger] resolved_views(resolved@)[j]).entry < cat@.len()
                    && cat@[resolved_views(resolved@)[j].entry].loaded is Ok by {
                    if j < k {
                        assert(resolved_views(resolved@)[j] == resolved_views(before)[j]);
                    } else if j > k {
                        assert(resolved_views(resolved@)[j] == resolved_views(before)[j - 1]);
                    }
                }
            }
            stack.push(owned(name));
            proof {
                assert(string_seq(stack@) =~= s0.push(name@));
            }
            let deps = &d.depends_on;
            let ghost s1 = s0.push(name@);
            let ghost st2 = ResolutionView { resolved: resolved_views(resolved@), errors: error_views(errors@) };
            let mut k: usize = 0;
            while k < deps.len()
                invariant
                    k <= deps@.len(),
                    deps@ == definition(cat@, c as int).depends_on@,
                    string_seq(stack@) == s1,
                    stack_ok(cat@, s1),
                    s1.len() <= cat@.len(),
                    s1.len() == s0.len() + 1,
                    resolved_ok(cat@, resolved_views(resolved@)),
                    old(stack)@.len() == s0.len(),
                    resolve_dependencies(cat@, deps@, 0, s1, st2) == resolve_dependencies(
                        cat@,
                        deps@,
                        k as int,
                        s1,
                        ResolutionView { resolved: resolved_views(resolved@), errors: error_views(errors@) },
                    ),
                decreases deps.len() - k,
            {
                let ghost cur = ResolutionView { resolved: resolved_views(resolved@), errors: error_views(errors@) };
                resolve_transitively(cat, deps[k].name.as_str(), deps[k].version.as_str(), resolved, stack, errors);
                proof {
                    let nxt = ResolutionView { resolved: resolved_views(resolved@), errors: error_views(errors@) };
                    assert(nxt == resolve_library(cat@, deps@[k as int].name@, deps@[k as int].version@, s1, cur));
                }
                k = k + 1;
            }
            let ghost before_pop = stack@;
            let _ = stack.pop();
            proof {
                assert(stack@ =~= before_pop.drop_last());
                assert(string_seq(before_pop) == s1);
                assert(string_seq(stack@) =~= s1.drop_last());
                assert(s1.drop_last() =~= s0);
            }
        },
    }
}

} // verus!

verus! {

/// What a fault tree takes in from a library.
#[derive(Debug, Clone, Copy, PartialEq, Eq, Structural)]
pub enum SpliceItem {
    /// A gate, by its position among the library's gates.
    Gate(usize),
    /// The basic event at this position of the library's basic events.
    BasicEvent(usize),
}

/// One library definition a fault tree takes in, under its qualified id.
#[derive(Debug, Clone)]
pub struct Splice {
    pub qualified_id: String,
    /// The catalog entry of the library.
    pub entry: usize,
    pub item: SpliceItem,
}

pub struct SpliceView {
    pub id: Seq<char>,
    pub entry: int,
    pub item: SpliceItem,
}

impl View for Splice {
    type V = SpliceView;

    open spec fn view(&self) -> SpliceView {
        SpliceView { id: self.qualified_id@, entry: self.entry as int, item: self.item }
    }
}

pub open spec fn splice_views(ps: Seq<Splice>) -> Seq<SpliceView> {
    ps.map_values(|p: Splice| p@)
}

/// The ids `ft` refers to directly: its root cause, then every gate input.
pub open spec fn referenced_ids(ft: FaultTree) -> Seq<Seq<char>> {
    seq![ft.top_event.root_cause@] + gates_of(ft).flat_map(|g: GateEntry| string_seq(g.gate.inputs@))
}

/// `ft` declares `q` itself, as a gate or a basic event.
pub open spec fn declared_in(ft: FaultTree, q: Seq<char>) -> bool {
    be_ids(ft).contains(q) || gate_entry_ids(gates_of(ft)).contains(q)
}

/// The first resolved library whose name, then a dot, starts `q`; or
/// `rs.len()`.
pub open spec fn library_of(rs: Seq<ResolvedView>, q: Seq<char>) -> int
    decreases rs.len(),
{
    if rs.len() == 0 {
        0
    } else if starts_with(q, rs[0].name + "."@) {
        0
    } else {
        1 + library_of(rs.drop_first(), q)
    }
}

pub proof fn lemma_library_of(rs: Seq<ResolvedView>, q: Seq<char>)
    ensures
        0 <= library_of(rs, q) <= rs.len(),
        library_of(rs, q) < rs.len() ==> starts_with(q, rs[library_of(rs, q)].name + "."@),
    decreases rs.len(),
{
    if rs.len() > 0 && !starts_with(q, rs[0].name + "."@) {
        lemma_library_of(rs.drop_first(), q);
    }
}

pub open spec fn library_be_ids(d: LibraryDefinition) -> Seq<Seq<char>> {
    d.basic_events@.map_values(|e: BasicEventEntry| e.id@)
}

/// Process the worklist `work` from its end: an id already seen or
/// declared by the tree itself is skipped; a qualified id of a resolved
/// library takes in that library's gate of that name (and queues its
/// inputs) or else its basic event of that name.
pub open spec fn splice_steps(
    ft: FaultTree,
    cat: Seq<CatalogEntry>,
    rs: Seq<ResolvedView>,
    work: Seq<Seq<char>>,
    seen: Seq<Seq<char>>,
    plan: Seq<SpliceView>,
    fuel: nat,
) -> Seq<SpliceView>
    decreases fuel,
{
    if fuel == 0 || work.len() == 0 {
        plan
    } else {
        let q = work.last();
        let w = work.drop_last();
        let f = (fuel - 1) as nat;
        if seen.contains(q) {
            splice_steps(ft, cat, rs, w, seen, plan, f)
        } else if declared_in(ft, q) {
            splice_steps(ft, cat, rs, w, seen.push(q), plan, f)
        } else {
            let li = library_of(rs, q);
            if li >= rs.len() {
                splice_steps(ft, cat, rs, w, seen.push(q), plan, f)
            } else {
                let lib = rs[li];
                let short = q.subrange(lib.name.len() as int + 1, q.len() as int);
                let d = definition(cat, lib.entry);
                let gi = index_of(gate_entry_ids(d.gates@), short);
                let bi = index_of(library_be_ids(d), short);
                if gi < d.gates@.len() {
                    splice_steps(
                        ft,
                        cat,
                        rs,
                        w + string_seq(d.gates@[gi].gate.inputs@),
                        seen.push(q),
                        plan.push(SpliceView { id: q, entry: lib.entry, item: SpliceItem::Gate(gi as usize) }),
                        f,
                    )
                } else if bi < d.basic_events@.len() {
                    splice_steps(
                        ft,
                        cat,
                        rs,
                        w,
                        seen.push(q),
                        plan.push(SpliceView { id: q, entry: lib.entry, item: SpliceItem::BasicEvent(bi as usize) }),
                        f,
                    )
                } else {
                    splice_steps(ft, cat, rs, w, seen.push(q), plan, f)
                }
            }
        }
    }
}

/// The budget of worklist steps: more than any document reaches.
pub open spec fn splice_fuel() -> nat {
    0xffff_ffff_ffff_ffffnat
}

/// What `ft` takes in from the resolved libraries, in the order taken.
pub open spec fn splice_plan_of(ft: FaultTree, cat: Seq<CatalogEntry>, rs: Seq<ResolvedView>) -> Seq<SpliceView> {
    splice_steps(ft, cat, rs, referenced_ids(ft), Seq::empty(), Seq::empty(), splice_fuel())
}

fn copy_into(out: &mut Vec<String>, xs: &Vec<String>)
    ensures
        string_seq(final(out)@) == string_seq(old(out)@) + string_seq(xs@),
{
    let mut i: usize = 0;
    while i < xs.len()
        invariant
            i <= xs@.len(),
            string_seq(out@) == string_seq(old(out)@) + string_seq(xs@.take(i as int)),
        decreases xs.len() - i,
    {
        let ghost before = out@;
        let s = owned(xs[i].as_str());
        out.push(s);
        proof {
            assert(string_seq(out@) =~= string_seq(before).push(s@));
            assert(string_seq(xs@.take(i as int + 1)) =~= string_seq(xs@.take(i as int)).push(xs@[i as int]@));
        }
        i = i + 1;
    }
    assert(xs@.take(xs@.len() as int) =~= xs@);
}

fn referenced(ft: &FaultTree) -> (r: Vec<String>)
    ensures
        string_seq(r@) == referenced_ids(*ft),
{
    let mut r: Vec<String> = Vec::new();
    r.push(owned(ft.top_event.root_cause.as_str()));
    let ghost head = string_seq(r@);
    let ghost f = |g: GateEntry| string_seq(g.gate.inputs@);
    match &ft.gates {
        Some(gs) => {
            proof {
                lemma_flat_map_empty(gs@, f);
            }
            let mut i: usize = 0;
            while i < gs.len()
                invariant
                    i <= gs@.len(),
                    gs@ == gates_of(*ft),
                    f == (|g: GateEntry| string_seq(g.gate.inputs@)),
                    string_seq(r@) == head + gs@.take(i as int).flat_map(f),
                decreases gs.len() - i,
            {
                copy_into(&mut r, &gs[i].gate.inputs);
                proof {
                    lemma_flat_map_step(gs@, f, i as int);
                }
                i = i + 1;
            }
            proof {
                lemma_take_all(gs@);
            }
        },
        None => {
            assert(gates_of(*ft).map_values(f) =~= Seq::<Seq<Seq<char>>>::empty());
            assert(gates_of(*ft).flat_map(f) =~= Seq::<Seq<char>>::empty());
        },
    }
    assert(string_seq(r@) =~= referenced_ids(*ft));
    r
}

fn list_contains(xs: &Vec<String>, x: &str) -> (b: bool)
    ensures
        b == string_seq(xs@).contains(x@),
{
    let mut i: usize = 0;
    while i < xs.len()
        invariant
            i <= xs@.len(),
            forall|j: int| 0 <= j < i ==> xs@[j]@ != x@,
        decreases xs.len() - i,
    {
        if same(xs[i].as_str(), x) {
            assert(string_seq(xs@)[i as int] == x@);
            return true;
        }
        i = i + 1;
    }
    proof {
        if string_seq(xs@).contains(x@) {
            let j = choose|j: int| 0 <= j < xs@.len() && string_seq(xs@)[j] == x@;
            assert(xs@[j]@ == x@);
        }
    }
    false
}

fn declared(ft: &FaultTree, q: &str) -> (b: bool)
    ensures
        b == declared_in(*ft, q@),
{
    let mut i: usize = 0;
    while i < ft.basic_events.len()
        invariant
            i <= ft.basic_events@.len(),
            forall|j: int| 0 <= j < i ==> ft.basic_events@[j].id@ != q@,
        decreases ft.basic_events.len() - i,
    {
        if same(ft.basic_events[i].id.as_str(), q) {
            assert(be_ids(*ft)[i as int] == q@);
            return true;
        }
        i = i + 1;
    }
    proof {
        if be_ids(*ft).contains(q@) {
            let j = choose|j: int| 0 <= j < be_ids(*ft).len() && be_ids(*ft)[j] == q@;
            assert(ft.basic_events@[j].id@ == q@);
        }
    }
    match &ft.gates {
        Some(gs) => {
            let p = gate_position(gs, q);
            proof {
                lemma_index_of(gate_entry_ids(gs@), q@);
            }
            p < gs.len()
        },
        None => {
            assert(gate_entry_ids(gates_of(*ft)) =~= Seq::<Seq<char>>::empty());
            false
        },
    }
}

fn library_position(rs: &Vec<ResolvedLibrary>, q: &str) -> (r: usize)
    ensures
        r == library_of(resolved_views(rs@), q@),
{
    let ghost v = resolved_views(rs@);
    let mut i: usize = 0;
    assert(v.skip(0) =~= v);
    while i < rs.len()
        invariant
            i <= rs@.len(),
            v == resolved_views(rs@),
            library_of(v, q@) == i + library_of(v.skip(i as int), q@),
        decreases rs.len() - i,
    {
        let prefix = cat(rs[i].name.as_str(), ".");
        proof {
            let t = v.skip(i as int);
            assert(t[0] == v[i as int]);
            assert(t.drop_first() =~= v.skip(i as int + 1));
        }
        if has_prefix(q, prefix.as_str()) {
            return i;
        }
        i = i + 1;
    }
    assert(v.skip(i as int).len() == 0);
    i
}

fn basic_event_position(es: &Vec<BasicEventEntry>, id: &str) -> (r: usize)
    ensures
        r == index_of(es@.map_values(|e: BasicEventEntry| e.id@), id@),
{
    let ghost ids = es@.map_values(|e: BasicEventEntry| e.id@);
    let mut i: usize = 0;
    while i < es.len()
        invariant
            i <= es@.len(),
            ids == es@.map_values(|e: BasicEventEntry| e.id@),
            forall|j: int| 0 <= j < i ==> ids[j] != id@,
        decreases es.len() - i,
    {
        if same(es[i].id.as_str(), id) {
            proof {
                lemma_index_of_is(ids, id@, i as int);
            }
            return i;
        }
        i = i + 1;
    }
    proof {
        lemma_index_of_is(ids, id@, i as int);
    }
    i
}

} // verus!

verus! {

/// Decide what `ft` takes in from the resolved libraries `rs`: a fixpoint
/// over the ids it refers to, following the inputs of every library gate
/// taken in. Ids the tree declares itself are never replaced, so a
/// document overrides a library default by declaring the qualified id.
pub fn splice_plan(ft: &FaultTree, cat: &Vec<CatalogEntry>, rs: &Vec<ResolvedLibrary>) -> (plan: Vec<Splice>)
    requires
        resolved_ok(cat@, resolved_views(rs@)),
    ensures
        splice_views(plan@) == splice_plan_of(*ft, cat@, resolved_views(rs@)),
{
    let ghost rv = resolved_views(rs@);
    let mut work = referenced(ft);
    let mut seen: Vec<String> = Vec::new();
    let mut plan: Vec<Splice> = Vec::new();
    let mut fuel: u64 = 0xffff_ffff_ffff_ffff;
    assert(string_seq(seen@) =~= Seq::<Seq<char>>::empty());
    assert(splice_views(plan@) =~= Seq::<SpliceView>::empty());
    while fuel > 0 && work.len() > 0
        invariant
            rv == resolved_views(rs@),
            resolved_ok(cat@, rv),
            splice_plan_of(*ft, cat@, rv) == splice_steps(
                *ft,
                cat@,
                rv,
                string_seq(work@),
                string_seq(seen@),
                splice_views(plan@),
                fuel as nat,
            ),
        decreases fuel,
    {
        let ghost w0 = string_seq(work@);
        let ghost s0 = string_seq(seen@);
        let ghost p0 = splice_views(plan@);
        let q = match work.pop() {
            Some(q) => q,
            None => String::new(),
        };
        proof {
            assert(string_seq(work@) =~= w0.drop_last());
            assert(q@ == w0.last());
        }
        fuel = fuel - 1;
        if list_contains(&seen, q.as_str()) {
            continue;
        }
        if declared(ft, q.as_str()) {
            seen.push(q);
            proof {
                assert(string_seq(seen@) =~= s0.push(w0.last()));
            }
            continue;
        }
        let li = library_position(rs, q.as_str());
        if li >= rs.len() {
            seen.push(q);
            proof {
                assert(string_seq(seen@) =~= s0.push(w0.last()));
            }
            continue;
        }
        let lib = &rs[li];
        let entry = lib.entry;
        proof {
            assert(rv[li as int] == lib@);
            assert(0 <= rv[li as int].entry < cat@.len() && cat@[rv[li as int].entry].loaded is Ok);
        }
        let d = match &cat[entry].loaded {
            Ok((_, d)) => d,
            Err(_) => {
                // A resolved library always names an entry that loaded.
                seen.push(q);
                continue;
            },
        };
        proof {
            reveal_strlit(".");
            lemma_library_of(rv, q@);
        }
        let qlen = q.as_str().unicode_len();
        let skip = lib.name.unicode_len() + 1;
        let short = q.as_str().substring_char(skip, qlen);
        let gi = gate_position(&d.gates, short);
        if gi < d.gates.len() {
            copy_into(&mut work, &d.gates[gi].gate.inputs);
            let sp = Splice { qualified_id: owned(q.as_str()), entry, item: SpliceItem::Gate(gi) };
            plan.push(sp);
            seen.push(q);
            proof {
                assert(string_seq(seen@) =~= s0.push(w0.last()));
                assert(splice_views(plan@) =~= p0.push(sp@));
            }
            continue;
        }
        let bi = basic_event_position(&d.basic_events, short);
        if bi < d.basic_events.len() {
            let sp = Splice { qualified_id: owned(q.as_str()), entry, item: SpliceItem::BasicEvent(bi) };
            plan.push(sp);
            proof {
                assert(splice_views(plan@) =~= p0.push(sp@));
            }
        }
        seen.push(q);
        proof {
            assert(string_seq(seen@) =~= s0.push(w0.last()));
        }
    }
    plan
}

} // verus!

verus! {

/// Resolve imports `k..` in order, each with no library around it.
pub open spec fn resolve_imports(
    cat: Seq<CatalogEntry>,
    imports: Seq<crate::model::LibraryImport>,
    k: int,
    st: ResolutionView,
) -> ResolutionView
    decreases imports.len() - k,
{
    if k < 0 || k >= imports.len() {
        st
    } else {
        resolve_imports(
            cat,
            imports,
            k + 1,
            resolve_library(cat, imports[k].name@, imports[k].version@, Seq::empty(), st),
        )
    }
}

/// The libraries `doc` imports, resolved with their dependencies.
pub open spec fn libraries_resolved(doc: Document, cat: Seq<CatalogEntry>) -> ResolutionView {
    resolve_imports(cat, doc.libraries@, 0, ResolutionView { resolved: Seq::empty(), errors: Seq::empty() })
}

/// What expanding a document's libraries gives.
#[derive(Debug)]
pub struct LibraryExpansion {
    /// The resolved libraries, in name order.
    pub resolved: Vec<ResolvedLibrary>,
    /// Every resolution problem, in the order found.
    pub errors: Vec<LibraryError>,
    /// For each fault tree of the document, in order, what it takes in.
    pub splices: Vec<Vec<Splice>>,
}

/// Resolve every library `doc` imports (transitively, reporting cycles,
/// version mismatches and libraries that could not be loaded) and decide,
/// for each fault tree, which library gates and basic events it takes in
/// by qualified id. `cat` holds what loading each library name gave.
pub fn expand_libraries(doc: &Document, cat: &Vec<CatalogEntry>) -> (r: LibraryExpansion)
    ensures
        resolved_views(r.resolved@) == libraries_resolved(*doc, cat@).resolved,
        error_views(r.errors@) == libraries_resolved(*doc, cat@).errors,
        r.splices@.len() == crate::reliability::trees_of(*doc).len(),
        forall|k: int|
            0 <= k < r.splices@.len() ==> splice_views(#[trigger] r.splices@[k]@) == splice_plan_of(
                crate::reliability::trees_of(*doc)[k].tree,
                cat@,
                resolved_views(r.resolved@),
            ),
{
    let mut resolved: Vec<ResolvedLibrary> = Vec::new();
    let mut stack: Vec<String> = Vec::new();
    let mut errors: Vec<LibraryError> = Vec::new();
    let imports = &doc.libraries;
    let ghost st0 = ResolutionView { resolved: Seq::empty(), errors: Seq::empty() };
    assert(resolved_views(resolved@) =~= Seq::<ResolvedView>::empty());
    assert(error_views(errors@) =~= Seq::<LibraryErrorView>::empty());
    assert(string_seq(stack@) =~= Seq::<Seq<char>>::empty());
    let mut k: usize = 0;
    while k < imports.len()
        invariant
            k <= imports@.len(),
            imports@ == doc.libraries@,
            string_seq(stack@) == Seq::<Seq<char>>::empty(),
            resolved_ok(cat@, resolved_views(resolved@)),
            libraries_resolved(*doc, cat@) == resolve_imports(
                cat@,
                imports@,
                k as int,
                ResolutionView { resolved: resolved_views(resolved@), errors: error_views(errors@) },
            ),
        decreases imports.len() - k,
    {
        proof {
            assert(stack_ok(cat@, string_seq(stack@)));
        }
        resolve_transitively(
            cat,
            imports[k].name.as_str(),
            imports[k].version.as_str(),
            &mut resolved,
            &mut stack,
            &mut errors,
        );
        k = k + 1;
    }
    let mut splices: Vec<Vec<Splice>> = Vec::new();
    match &doc.fault_trees {
        Some(fts) => {
            let mut i: usize = 0;
            while i < fts.len()
                invariant
                    i <= fts@.len(),
                    fts@ == crate::reliability::trees_of(*doc),
                    resolved_ok(cat@, resolved_views(resolved@)),
                    splices@.len() == i,
                    forall|j: int|
                        0 <= j < i ==> splice_views(#[trigger] splices@[j]@) == splice_plan_of(
                            fts@[j].tree,
                            cat@,
                            resolved_views(resolved@),
                        ),
                decreases fts.len() - i,
            {
                let plan = splice_plan(&fts[i].tree, cat, &resolved);
                splices.push(plan);
                i = i + 1;
            }
        },
        None => {},
    }
    LibraryExpansion { resolved, errors, splices }
}

} // verus!

verus! {

/// Where a library was found.
#[derive(Debug, Clone, Copy, PartialEq, Eq, Structural)]
pub enum LibraryLocation {
    /// Embedded in the compiler.
    BuiltIn,
    /// `<dir>/<name>/lib.etdl` under the search directory at this position.
    SearchPath(usize),
    /// `lib/<name>/lib.etdl` beside the importing document.
    User,
}

/// The position of the first `true` in `hits`, or `hits.len()`.
pub open spec fn first_hit(hits: Seq<bool>) -> int
    decreases hits.len(),
{
    if hits.len() == 0 {
        0
    } else if hits[0] {
        0
    } else {
        1 + first_hit(hits.drop_first())
    }
}

proof fn lemma_first_hit(hits: Seq<bool>)
    ensures
        0 <= first_hit(hits) <= hits.len(),
        first_hit(hits) < hits.len() ==> hits[first_hit(hits)],
        forall|j: int| 0 <= j < first_hit(hits) ==> !hits[j],
    decreases hits.len(),
{
    if hits.len() > 0 && !hits[0] {
        lemma_first_hit(hits.drop_first());
        assert forall|j: int| 0 <= j < first_hit(hits) implies !hits[j] by {
            if j > 0 {
                assert(hits[j] == hits.drop_first()[j - 1]);
            }
        }
    }
}

pub open spec fn reserved_searched() -> Seq<char> {
    "the built-in standard library registry (reserved namespace: never searched elsewhere)"@
}

pub open spec fn everywhere_searched(paths: nat, user_path: Seq<char>) -> Seq<char> {
    "built-in registry, "@ + crate::text::decimal(paths) + " search path(s), and '"@ + user_path + "'"@
}

/// Where library `name` is loaded from, given which search directories
/// (in order) and whether the importing document's `lib/` directory hold
/// a `<name>/lib.etdl`: a built-in name is built in; any other `std.*` name
/// is never looked for elsewhere (and is shadowing if a file for it
/// exists); otherwise the first search directory that has it, then the
/// document's own `lib/`.
pub open spec fn location_of(name: Seq<char>, hits: Seq<bool>, user_hit: bool, user_path: Seq<char>) -> Result<
    (LibraryKind, LibraryLocation),
    LibraryErrorView,
> {
    if builtin_library_names().contains(name) {
        Ok((LibraryKind::BuiltIn, LibraryLocation::BuiltIn))
    } else if starts_with(name, "std."@) {
        if hits.contains(true) || user_hit {
            Err(LibraryErrorView::Shadowing { name, prefix: "std."@ })
        } else {
            Err(LibraryErrorView::NotFound { name, searched: reserved_searched() })
        }
    } else if first_hit(hits) < hits.len() {
        Ok((LibraryKind::Optional, LibraryLocation::SearchPath(first_hit(hits) as usize)))
    } else if user_hit {
        Ok((LibraryKind::User, LibraryLocation::User))
    } else {
        Err(LibraryErrorView::NotFound { name, searched: everywhere_searched(hits.len(), user_path) })
    }
}

/// Decide where library `name` comes from; see [`location_of`].
/// `search_hits[i]` says whether the `i`-th search directory holds the
/// library, `user_hit` whether the importing document's `lib/` does, and
/// `user_path` is how that last place is shown in a not-found error.
pub fn locate_library(name: &str, search_hits: &Vec<bool>, user_hit: bool, user_path: &str) -> (r: Result<
    (LibraryKind, LibraryLocation),
    LibraryError,
>)
    ensures
        match (r, location_of(name@, search_hits@, user_hit, user_path@)) {
            (Ok(a), Ok(b)) => a == b,
            (Err(e), Err(v)) => e@ == v,
            _ => false,
        },
{
    let builtin = LibraryResolver::builtin_names();
    if list_contains(&builtin, name) {
        return Ok((LibraryKind::BuiltIn, LibraryLocation::BuiltIn));
    }
    let ghost hits = search_hits@;
    proof {
        lemma_first_hit(hits);
    }
    let mut i: usize = 0;
    while i < search_hits.len() && !search_hits[i]
        invariant
            i <= hits.len(),
            hits == search_hits@,
            forall|j: int| 0 <= j < i ==> !hits[j],
        decreases search_hits.len() - i,
    {
        i = i + 1;
    }
    proof {
        lemma_first_hit(hits);
        if first_hit(hits) < i {
            assert(hits[first_hit(hits)]);
        }
        if i < hits.len() {
            assert(hits[i as int]);
            if first_hit(hits) > i {
                assert(!hits[i as int]);
            }
            assert(hits.contains(true));
        } else {
            assert(!hits.contains(true));
        }
    }
    if has_prefix(name, "std.") {
        if i < search_hits.len() || user_hit {
            return Err(LibraryError::Shadowing { name: owned(name), prefix: owned("std.") });
        }
        return Err(
            LibraryError::NotFound {
                name: owned(name),
                searched: owned(
                    "the built-in standard library registry (reserved namespace: never searched elsewhere)",
                ),
            },
        );
    }
    if i < search_hits.len() {
        return Ok((LibraryKind::Optional, LibraryLocation::SearchPath(i)));
    }
    if user_hit {
        return Ok((LibraryKind::User, LibraryLocation::User));
    }
    let count = decimal_string(search_hits.len() as u64);
    Err(
        LibraryError::NotFound {
            name: owned(name),
            searched: cat5("built-in registry, ", count.as_str(), " search path(s), and '", user_path, "'"),
        },
    )
}

} // verus!


verus! {

/// The names catalog entry `c` depends on, when it loaded.
pub open spec fn entry_dependencies(c: CatalogEntry) -> Seq<Seq<char>> {
    match c.loaded {
        Ok((_, d)) => d.depends_on@.map_values(|x: LibraryDependency| x.name@),
        Err(_) => Seq::empty(),
    }
}

/// The library names resolution will ask for, as far as the catalog
/// shows: the imports, then what each loaded entry depends on.
pub open spec fn wanted_names(doc: Document, cat: Seq<CatalogEntry>) -> Seq<Seq<char>> {
    doc.libraries@.map_values(|l: crate::model::LibraryImport| l.name@) + cat.flat_map(
        |c: CatalogEntry| entry_dependencies(c),
    )
}

/// The first of `ws` that `names` does not hold.
pub open spec fn first_missing(ws: Seq<Seq<char>>, names: Seq<Seq<char>>) -> Option<Seq<char>>
    decreases ws.len(),
{
    if ws.len() == 0 {
        None
    } else if !names.contains(ws[0]) {
        Some(ws[0])
    } else {
        first_missing(ws.drop_first(), names)
    }
}

fn push_name(out: &mut Vec<String>, name: &str)
    ensures
        string_seq(final(out)@) == string_seq(old(out)@).push(name@),
{
    out.push(owned(name));
    assert(string_seq(out@) =~= string_seq(old(out)@).push(name@));
}

fn dependencies_of(c: &CatalogEntry, out: &mut Vec<String>)
    ensures
        string_seq(final(out)@) == string_seq(old(out)@) + entry_dependencies(*c),
{
    match &c.loaded {
        Ok((_, d)) => {
            let deps = &d.depends_on;
            let ghost f = |x: LibraryDependency| x.name@;
            let mut i: usize = 0;
            while i < deps.len()
                invariant
                    i <= deps@.len(),
                    f == (|x: LibraryDependency| x.name@),
                    c.loaded == Ok::<(LibraryKind, LibraryDefinition), LibraryError>((c.loaded->Ok_0.0, *d)),
                    string_seq(out@) == string_seq(old(out)@) + deps@.take(i as int).map_values(f),
                decreases deps.len() - i,
            {
                push_name(out, deps[i].name.as_str());
                assert(deps@.take(i as int + 1).map_values(f) =~= deps@.take(i as int).map_values(f).push(
                    deps@[i as int].name@,
                ));
                i = i + 1;
            }
            assert(deps@.take(deps@.len() as int) =~= deps@);
        },
        Err(_) => {
            assert(string_seq(out@) =~= string_seq(old(out)@) + entry_dependencies(*c));
        },
    }
}

/// The next library to load before resolving `doc`: the first name the
/// imports, or a loaded entry's dependencies, ask for that `cat` has no
/// entry for; `None` once the catalog holds all of them.
pub fn next_library_to_load(doc: &Document, cat: &Vec<CatalogEntry>) -> (r: Option<String>)
    ensures
        match r {
            Some(s) => first_missing(wanted_names(*doc, cat@), catalog_names(cat@)) == Some(s@),
            None => first_missing(wanted_names(*doc, cat@), catalog_names(cat@)) is None,
        },
{
    let mut ws: Vec<String> = Vec::new();
    let imports = &doc.libraries;
    let ghost fi = |l: crate::model::LibraryImport| l.name@;
    let mut i: usize = 0;
    assert(string_seq(ws@) =~= Seq::<Seq<char>>::empty());
    while i < imports.len()
        invariant
            i <= imports@.len(),
            imports@ == doc.libraries@,
            fi == (|l: crate::model::LibraryImport| l.name@),
            string_seq(ws@) == imports@.take(i as int).map_values(fi),
        decreases imports.len() - i,
    {
        push_name(&mut ws, imports[i].name.as_str());
        assert(imports@.take(i as int + 1).map_values(fi) =~= imports@.take(i as int).map_values(fi).push(
            imports@[i as int].name@,
        ));
        i = i + 1;
    }
    assert(imports@.take(imports@.len() as int) =~= imports@);
    let ghost head = string_seq(ws@);
    let ghost fd = |c: CatalogEntry| entry_dependencies(c);
    proof {
        lemma_flat_map_empty(cat@, fd);
    }
    let mut j: usize = 0;
    while j < cat.len()
        invariant
            j <= cat@.len(),
            fd == (|c: CatalogEntry| entry_dependencies(c)),
            string_seq(ws@) == head + cat@.take(j as int).flat_map(fd),
        decreases cat.len() - j,
    {
        dependencies_of(&cat[j], &mut ws);
        proof {
            lemma_flat_map_step(cat@, fd, j as int);
        }
        j = j + 1;
    }
    proof {
        lemma_take_all(cat@);
    }
    let ghost all = string_seq(ws@);
    let ghost names = catalog_names(cat@);
    assert(all == wanted_names(*doc, cat@));
    let mut k: usize = 0;
    assert(all.skip(0) =~= all);
    while k < ws.len()
        invariant
            k <= ws@.len(),
            all == string_seq(ws@),
            all == wanted_names(*doc, cat@),
            names == catalog_names(cat@),
            first_missing(all, names) == first_missing(all.skip(k as int), names),
        decreases ws.len() - k,
    {
        let w = ws[k].as_str();
        let p = catalog_position(cat, w);
        proof {
            lemma_index_of(names, w@);
            let t = all.skip(k as int);
            assert(t[0] == all[k as int]);
            assert(t.drop_first() =~= all.skip(k as int + 1));
        }
        if p >= cat.len() {
            proof {
                assert(all[k as int] == w@);
                assert(!names.contains(w@));
                assert(first_missing(all.skip(k as int), names) == Some(w@));
            }
            return Some(owned(w));
        }
        k = k + 1;
    }
    proof {
        assert(all.skip(k as int).len() == 0);
    }
    None
}

} // verus!
