//! The supplement extension registry: which supplement ids this compiler
//! implements, with each one's self-reported description.

use vstd::prelude::*;
use crate::libraries::insertion_point;
use crate::text::{lex_lt, lemma_lex_total, lemma_lex_transitive, lemma_lex_irreflexive, less_than, same, owned};

verus! {

/// Self-reported metadata about what a supplement validates and declares.
#[derive(Debug, Clone)]
pub struct SupplementDescriptor {
    /// One-line human summary of what this supplement validates/declares.
    pub summary: String,
    /// The schema/version string this supplement's `x-*` field is
    /// versioned against, if it has one.
    pub schema: Option<String>,
    /// Every diagnostic code this supplement's own validation can produce.
    pub diagnostic_codes: Vec<String>,
    /// Other supplement ids this one depends on.
    pub required_supplements: Vec<String>,
}

/// The identity of a registered extension.
#[derive(Debug, Clone)]
pub struct ExtensionInfo {
    /// The namespaced extension id, e.g. `etdl.reliability`.
    pub id: String,
    pub version: String,
    pub descriptor: SupplementDescriptor,
}

/// A deterministic registry of extensions, keyed by id and kept in id order.
pub struct ExtensionRegistry {
    entries: Vec<ExtensionInfo>,
}

/// The ids of `es`, in order.
pub open spec fn info_ids(es: Seq<ExtensionInfo>) -> Seq<Seq<char>> {
    es.map_values(|e: ExtensionInfo| e.id@)
}

/// Strictly increasing in lexicographic order (so also free of repeats).
pub open spec fn strictly_sorted(ids: Seq<Seq<char>>) -> bool {
    forall|i: int, j: int| 0 <= i < j < ids.len() ==> lex_lt(ids[i], ids[j])
}

/// The ids after registering `x`: unchanged when `x` is already there,
/// else `x` inserted at its place in order.
pub open spec fn ids_after_register(ids: Seq<Seq<char>>, x: Seq<char>) -> Seq<Seq<char>> {
    if ids.contains(x) {
        ids
    } else {
        ids.insert(insertion_point(ids, x), x)
    }
}

/// Where every id before `i` sorts before `x` and the id at `i` (if any)
/// does not, `x`'s place is `i`.
proof fn lemma_insertion_point_at(ids: Seq<Seq<char>>, x: Seq<char>, i: int)
    requires
        0 <= i <= ids.len(),
        forall|j: int| 0 <= j < i ==> lex_lt(#[trigger] ids[j], x),
        i < ids.len() ==> !lex_lt(ids[i], x),
    ensures
        insertion_point(ids, x) == i,
    decreases ids.len(),
{
    if ids.len() > 0 && i > 0 {
        assert(lex_lt(ids[0], x));
        let t = ids.drop_first();
        assert forall|j: int| 0 <= j < i - 1 implies lex_lt(#[trigger] t[j], x) by {
            assert(t[j] == ids[j + 1]);
        }
        if i - 1 < t.len() {
            assert(t[i - 1] == ids[i]);
        }
        lemma_insertion_point_at(t, x, i - 1);
    }
}

impl ExtensionRegistry {
    #[verifier::type_invariant]
    spec fn sorted_by_id(self) -> bool {
        strictly_sorted(info_ids(self.entries@))
    }

    /// Registered ids, in increasing order.
    pub closed spec fn ids(self) -> Seq<Seq<char>> {
        info_ids(self.entries@)
    }

    /// The extension registered under `id`.
    pub closed spec fn entry(self, id: Seq<char>) -> ExtensionInfo {
        self.entries@[choose|i: int| 0 <= i < self.entries@.len() && self.entries@[i].id@ == id]
    }

    pub fn new() -> (r: ExtensionRegistry)
        ensures
            r.ids() == Seq::<Seq<char>>::empty(),
    {
        let r = ExtensionRegistry { entries: Vec::new() };
        assert(r.ids() =~= Seq::<Seq<char>>::empty());
        r
    }

    /// Register an extension. Registering a duplicate id replaces the
    /// previous entry (deterministic last-write-wins).
    pub fn register(&mut self, extension: ExtensionInfo)
        ensures
            final(self).ids() == ids_after_register(old(self).ids(), extension.id@),
            final(self).ids().to_set() == old(self).ids().to_set().insert(extension.id@),
            final(self).entry(extension.id@) == extension,
            forall|id: Seq<char>|
                old(self).ids().contains(id) && id != extension.id@ ==> final(self).entry(id)
                    == old(self).entry(id),
    {
        proof {
            use_type_invariant(&*self);
        }
        let mut es: Vec<ExtensionInfo> = Vec::new();
        std::mem::swap(&mut es, &mut self.entries);
        let ghost old_es = es@;
        let mut i: usize = 0;
        while i < es.len() && less_than(es[i].id.as_str(), extension.id.as_str())
            invariant
                es@ == old_es,
                i <= es.len(),
                forall|j: int| 0 <= j < i ==> lex_lt(es@[j].id@, extension.id@),
            decreases es.len() - i,
        {
            i = i + 1;
        }
        let ghost old_ids = info_ids(old_es);
        let replace = i < es.len() && same(es[i].id.as_str(), extension.id.as_str());
        let ghost ext = extension;
        proof {
            lemma_insertion_point_at(old_ids, ext.id@, i as int);
            if !replace && old_ids.contains(ext.id@) {
                let j = choose|j: int| 0 <= j < old_ids.len() && old_ids[j] == ext.id@;
                if j < i {
                    lemma_lex_irreflexive(ext.id@);
                } else if j > i {
                    assert(lex_lt(old_ids[i as int], old_ids[j]));
                } else {
                    assert(old_es[j].id@ == ext.id@);
                }
            }
        }
        if replace {
            proof {
                assert(old_ids[i as int] == ext.id@);
            }
            es.set(i, extension);
            proof {
                assert(info_ids(es@) =~= old_ids);
                assert(old_ids.contains(ext.id@));
                assert(info_ids(es@).to_set() =~= old_ids.to_set().insert(ext.id@));
            }
        } else {
            es.insert(i, extension);
            proof {
                assert(info_ids(es@) =~= old_ids.insert(i as int, ext.id@));
                old_ids.insert_ensures(i as int, ext.id@);
                if i < old_es.len() {
                    lemma_lex_total(old_es[i as int].id@, ext.id@);
                }
                assert forall|a: int, b: int| 0 <= a < b < es@.len() implies lex_lt(
                    info_ids(es@)[a],
                    info_ids(es@)[b],
                ) by {
                    if b == i {
                    } else if a == i {
                        if b > i + 1 {
                            assert(lex_lt(old_ids[i as int], old_ids[b - 1]));
                            lemma_lex_transitive(
                                ext.id@,
                                old_es[i as int].id@,
                                old_es[b - 1].id@,
                            );
                        }
                    } else if a < i && b > i {
                        assert(lex_lt(old_es[a].id@, ext.id@));
                        if i < old_es.len() {
                            assert(lex_lt(ext.id@, old_es[i as int].id@));
                            if b - 1 > i {
                                assert(lex_lt(old_ids[i as int], old_ids[b - 1]));
                                lemma_lex_transitive(
                                    ext.id@,
                                    old_es[i as int].id@,
                                    old_es[b - 1].id@,
                                );
                            }
                            lemma_lex_transitive(old_es[a].id@, ext.id@, old_es[b - 1].id@);
                        }
                    }
                }
                let ni = info_ids(es@);
                let ins = old_ids.insert(i as int, ext.id@);
                assert(ni =~= ins);
                assert(ni.len() == old_ids.len() + 1);
                assert forall|x: Seq<char>| ni.contains(x) <==> (old_ids.contains(x) || x
                    == ext.id@) by {
                    if ni.contains(x) {
                        let j = choose|j: int| 0 <= j < ni.len() && ni[j] == x;
                        if j < i {
                            assert(old_ids[j] == x);
                        } else if j > i {
                            assert(ins[(j - 1) + 1] == old_ids[j - 1]);
                            assert(old_ids[j - 1] == x);
                        }
                    }
                    if old_ids.contains(x) {
                        let j = choose|j: int| 0 <= j < old_ids.len() && old_ids[j] == x;
                        if j < i {
                            assert(ni[j] == x);
                        } else {
                            assert(ins[j + 1] == old_ids[j]);
                            assert(ni[j + 1] == x);
                        }
                    }
                    if x == ext.id@ {
                        assert(ni[i as int] == x);
                    }
                }
                assert(ni.to_set() =~= old_ids.to_set().insert(ext.id@));
            }
        }
        let ghost new_es = es@;
        self.entries = es;
        proof {
            let w = choose|j: int| 0 <= j < new_es.len() && new_es[j].id@ == ext.id@;
            assert(new_es[i as int].id@ == ext.id@);
            if w != i {
                if w < i {
                    assert(lex_lt(info_ids(new_es)[w], info_ids(new_es)[i as int]));
                } else {
                    assert(lex_lt(info_ids(new_es)[i as int], info_ids(new_es)[w]));
                }
                lemma_lex_irreflexive(ext.id@);
            }
            assert forall|id: Seq<char>|
                old_ids.contains(id) && id != ext.id@ implies self.entry(id) == old(
                self,
            ).entry(id) by {
                let a = choose|j: int| 0 <= j < old_es.len() && old_es[j].id@ == id;
                let b = choose|j: int| 0 <= j < new_es.len() && new_es[j].id@ == id;
                let k = choose|j: int| 0 <= j < old_ids.len() && old_ids[j] == id;
                assert(old_es[k].id@ == id);
                let m = if replace {
                    k
                } else if k < i {
                    k
                } else {
                    k + 1
                };
                assert(new_es[m].id@ == id);
                if b != m {
                    if b < m {
                        assert(lex_lt(info_ids(new_es)[b], info_ids(new_es)[m]));
                    } else {
                        assert(lex_lt(info_ids(new_es)[m], info_ids(new_es)[b]));
                    }
                    lemma_lex_irreflexive(id);
                }
                if a != k {
                    if a < k {
                        assert(lex_lt(old_ids[a], old_ids[k]));
                    } else {
                        assert(lex_lt(old_ids[k], old_ids[a]));
                    }
                    lemma_lex_irreflexive(id);
                }
            }
        }
    }

    fn position(&self, id: &str) -> (r: Option<usize>)
        ensures
            match r {
                Some(i) => i < self.entries@.len() && self.entries@[i as int].id@ == id@,
                None => !self.ids().contains(id@),
            },
    {
        let mut i: usize = 0;
        while i < self.entries.len()
            invariant
                i <= self.entries@.len(),
                forall|j: int| 0 <= j < i ==> self.entries@[j].id@ != id@,
            decreases self.entries.len() - i,
        {
            if same(self.entries[i].id.as_str(), id) {
                return Some(i);
            }
            i = i + 1;
        }
        None
    }

    pub fn lookup(&self, id: &str) -> (r: Option<&ExtensionInfo>)
        ensures
            r.is_some() == self.ids().contains(id@),
            r.is_some() ==> *r.unwrap() == self.entry(id@),
    {
        proof {
            use_type_invariant(self);
        }
        match self.position(id) {
            Some(i) => {
                proof {
                    let w = choose|j: int|
                        0 <= j < self.entries@.len() && self.entries@[j].id@ == id@;
                    if w != i {
                        if w < i {
                            assert(lex_lt(self.ids()[w], self.ids()[i as int]));
                        } else {
                            assert(lex_lt(self.ids()[i as int], self.ids()[w]));
                        }
                        lemma_lex_irreflexive(id@);
                    }
                    assert(self.ids()[i as int] == id@);
                }
                Some(&self.entries[i])
            },
            None => None,
        }
    }

    pub fn contains(&self, id: &str) -> (b: bool)
        ensures
            b == self.ids().contains(id@),
    {
        let r = self.position(id);
        proof {
            if r.is_some() {
                assert(self.ids()[r.unwrap() as int] == id@);
            }
        }
        r.is_some()
    }

    /// Registered extension ids, sorted (deterministic).
    pub fn list(&self) -> (r: Vec<String>)
        ensures
            r@.map_values(|s: String| s@) == self.ids(),
            strictly_sorted(self.ids()),
    {
        proof {
            use_type_invariant(self);
        }
        let mut r: Vec<String> = Vec::new();
        let mut i: usize = 0;
        while i < self.entries.len()
            invariant
                i <= self.entries@.len(),
                r@.map_values(|s: String| s@) == info_ids(self.entries@).take(i as int),
            decreases self.entries.len() - i,
        {
            let ghost before = r@;
            let s = owned(self.entries[i].id.as_str());
            r.push(s);
            assert(r@.map_values(|s: String| s@) =~= before.map_values(|s: String| s@).push(
                s@,
            ));
            assert(info_ids(self.entries@).take(i + 1) =~= info_ids(self.entries@).take(
                i as int,
            ).push(info_ids(self.entries@)[i as int]));
            i = i + 1;
        }
        assert(info_ids(self.entries@).take(i as int) =~= info_ids(self.entries@));
        r
    }
}

} // verus!

verus! {

/// The characters of each string of `xs`.
pub open spec fn str_views(xs: Seq<&str>) -> Seq<Seq<char>> {
    xs.map_values(|x: &str| x@)
}

/// The characters of each string of `xs`.
pub open spec fn string_views(xs: Seq<String>) -> Seq<Seq<char>> {
    xs.map_values(|x: String| x@)
}

/// Owned copies of `xs`, in order.
pub fn to_strings(xs: &[&str]) -> (r: Vec<String>)
    ensures
        string_views(r@) == str_views(xs@),
{
    let mut r: Vec<String> = Vec::new();
    let mut i: usize = 0;
    while i < xs.len()
        invariant
            i <= xs@.len(),
            string_views(r@) == str_views(xs@).take(i as int),
        decreases xs.len() - i,
    {
        let ghost before = r@;
        let s = owned(xs[i]);
        r.push(s);
        assert(string_views(r@) =~= string_views(before).push(s@));
        assert(str_views(xs@).take(i + 1) =~= str_views(xs@).take(i as int).push(xs@[i as int]@));
        i = i + 1;
    }
    assert(str_views(xs@).take(i as int) =~= str_views(xs@));
    r
}

/// A descriptor built from its parts.
pub fn make_descriptor(
    summary: &str,
    schema: Option<&str>,
    codes: &[&str],
    required_ids: &[&str],
) -> (d: SupplementDescriptor)
    ensures
        d.summary@ == summary@,
        d.schema.is_some() == schema.is_some(),
        schema.is_some() ==> d.schema.unwrap()@ == schema.unwrap()@,
        string_views(d.diagnostic_codes@) == str_views(codes@),
        string_views(d.required_supplements@) == str_views(required_ids@),
{
    SupplementDescriptor {
        summary: owned(summary),
        schema: match schema {
            Some(s) => Some(owned(s)),
            None => None,
        },
        diagnostic_codes: to_strings(codes),
        required_supplements: to_strings(required_ids),
    }
}

} // verus!

verus! {

/// The ids of the supplements built into this compiler.
pub open spec fn builtin_ids() -> Set<Seq<char>> {
    set![
        crate::tree_event::tree_event_id(),
        crate::performance::performance_id(),
        crate::safety::safety_id(),
        crate::diagnostics::diagnostics_id(),
        crate::security::security_id(),
        crate::live_reliability::live_reliability_id(),
        crate::reliability::reliability_id(),
    ]
}

/// The built-in ids are pairwise distinct.
proof fn lemma_builtin_ids_distinct()
    ensures
        crate::tree_event::tree_event_id() != crate::performance::performance_id(),
        crate::tree_event::tree_event_id() != crate::safety::safety_id(),
        crate::tree_event::tree_event_id() != crate::diagnostics::diagnostics_id(),
        crate::tree_event::tree_event_id() != crate::security::security_id(),
        crate::tree_event::tree_event_id() != crate::live_reliability::live_reliability_id(),
        crate::tree_event::tree_event_id() != crate::reliability::reliability_id(),
        crate::performance::performance_id() != crate::safety::safety_id(),
        crate::performance::performance_id() != crate::diagnostics::diagnostics_id(),
        crate::performance::performance_id() != crate::security::security_id(),
        crate::performance::performance_id() != crate::live_reliability::live_reliability_id(),
        crate::performance::performance_id() != crate::reliability::reliability_id(),
        crate::safety::safety_id() != crate::diagnostics::diagnostics_id(),
        crate::safety::safety_id() != crate::security::security_id(),
        crate::safety::safety_id() != crate::live_reliability::live_reliability_id(),
        crate::safety::safety_id() != crate::reliability::reliability_id(),
        crate::diagnostics::diagnostics_id() != crate::security::security_id(),
        crate::diagnostics::diagnostics_id() != crate::live_reliability::live_reliability_id(),
        crate::diagnostics::diagnostics_id() != crate::reliability::reliability_id(),
        crate::security::security_id() != crate::live_reliability::live_reliability_id(),
        crate::security::security_id() != crate::reliability::reliability_id(),
        crate::live_reliability::live_reliability_id() != crate::reliability::reliability_id(),
{
    reveal_strlit("etdl.tree-event");
    reveal_strlit("etdl.performance");
    reveal_strlit("etdl.safety");
    reveal_strlit("etdl.diagnostics");
    reveal_strlit("etdl.security");
    reveal_strlit("etdl.live-reliability");
    reveal_strlit("etdl.reliability");
    assert(crate::tree_event::tree_event_id().len() == 15 && crate::tree_event::tree_event_id()[5] == 't');
    assert(crate::performance::performance_id().len() == 16 && crate::performance::performance_id()[5] == 'p');
    assert(crate::safety::safety_id().len() == 11 && crate::safety::safety_id()[5] == 's');
    assert(crate::diagnostics::diagnostics_id().len() == 16 && crate::diagnostics::diagnostics_id()[5] == 'd');
    assert(crate::security::security_id().len() == 13 && crate::security::security_id()[5] == 's');
    assert(crate::live_reliability::live_reliability_id().len() == 21 && crate::live_reliability::live_reliability_id()[5] == 'l');
    assert(crate::reliability::reliability_id().len() == 16 && crate::reliability::reliability_id()[5] == 'r');
}

/// The registry holds an entry for `id`: under that id, at version 1.0.
pub open spec fn holds_builtin(r: ExtensionRegistry, id: Seq<char>) -> bool {
    &&& r.ids().contains(id)
    &&& r.entry(id).id@ == id
    &&& r.entry(id).version@ == "1.0"@
}

/// Built-in extensions shipped with the compiler: discoverability and
/// support checking (the E-108/W-407 "is this supplement supported" check).
/// Each built-in id is registered with its extension's own entry: id,
/// version 1.0 and descriptor.
#[verifier::rlimit(40)]
pub fn builtin_registry() -> (r: ExtensionRegistry)
    ensures
        r.ids().to_set() == builtin_ids(),
        forall|id: Seq<char>|
            #[trigger] r.ids().contains(id) ==> r.entry(id).descriptor.summary@.len() > 0
                && r.entry(id).descriptor.diagnostic_codes@.len() > 0,
        holds_builtin(r, crate::tree_event::tree_event_id()),
        crate::tree_event::tree_event_descriptor(r.entry(crate::tree_event::tree_event_id()).descriptor),
        holds_builtin(r, crate::performance::performance_id()),
        crate::performance::performance_descriptor(r.entry(crate::performance::performance_id()).descriptor),
        holds_builtin(r, crate::safety::safety_id()),
        crate::safety::safety_descriptor(r.entry(crate::safety::safety_id()).descriptor),
        holds_builtin(r, crate::diagnostics::diagnostics_id()),
        crate::diagnostics::diagnostics_descriptor(r.entry(crate::diagnostics::diagnostics_id()).descriptor),
        holds_builtin(r, crate::security::security_id()),
        crate::security::security_descriptor(r.entry(crate::security::security_id()).descriptor),
        holds_builtin(r, crate::live_reliability::live_reliability_id()),
        crate::live_reliability::live_reliability_descriptor(r.entry(crate::live_reliability::live_reliability_id()).descriptor),
        holds_builtin(r, crate::reliability::reliability_id()),
        crate::reliability::reliability_descriptor(r.entry(crate::reliability::reliability_id()).descriptor),
{
    proof {
        reveal_strlit("etdl.tree-event");
        reveal_strlit("etdl.performance");
        reveal_strlit("etdl.safety");
        reveal_strlit("etdl.diagnostics");
        reveal_strlit("etdl.security");
        reveal_strlit("etdl.live-reliability");
        reveal_strlit("etdl.reliability");
        lemma_builtin_ids_distinct();
    }
    let mut registry = ExtensionRegistry::new();
    let ghost before = registry;
    let tree_event = crate::tree_event::TreeEventExtension::new().info();
    assert(crate::tree_event::tree_event_descriptor(tree_event.descriptor));
    registry.register(tree_event);
    proof {
        assert(registry.ids().to_set().contains(crate::tree_event::tree_event_id()));
        assert(registry.ids().contains(crate::tree_event::tree_event_id()));
        assert(holds_builtin(registry, crate::tree_event::tree_event_id()));
        assert(crate::tree_event::tree_event_descriptor(registry.entry(crate::tree_event::tree_event_id()).descriptor));
    }
    let ghost before = registry;
    registry.register(crate::performance::PerformanceExtension::new().info());
    proof {
        assert(registry.ids().to_set().contains(crate::performance::performance_id()));
        assert(registry.ids().contains(crate::performance::performance_id()));
        assert(before.ids().to_set().contains(crate::tree_event::tree_event_id()));
        assert(before.ids().contains(crate::tree_event::tree_event_id()));
        assert(before.entry(crate::tree_event::tree_event_id()) == registry.entry(crate::tree_event::tree_event_id()));
        assert(registry.ids().to_set().contains(crate::tree_event::tree_event_id()));
        assert(registry.ids().contains(crate::tree_event::tree_event_id()));
        assert(holds_builtin(registry, crate::tree_event::tree_event_id()));
        assert(crate::tree_event::tree_event_descriptor(registry.entry(crate::tree_event::tree_event_id()).descriptor));
        assert(holds_builtin(registry, crate::performance::performance_id()));
        assert(crate::performance::performance_descriptor(registry.entry(crate::performance::performance_id()).descriptor));
    }
    let ghost before = registry;
    registry.register(crate::safety::SafetyExtension::new().info());
    proof {
        assert(registry.ids().to_set().contains(crate::safety::safety_id()));
        assert(registry.ids().contains(crate::safety::safety_id()));
        assert(before.ids().to_set().contains(crate::tree_event::tree_event_id()));
        assert(before.ids().contains(crate::tree_event::tree_event_id()));
        assert(before.entry(crate::tree_event::tree_event_id()) == registry.entry(crate::tree_event::tree_event_id()));
        assert(registry.ids().to_set().contains(crate::tree_event::tree_event_id()));
        assert(registry.ids().contains(crate::tree_event::tree_event_id()));
        assert(before.ids().to_set().contains(crate::performance::performance_id()));
        assert(before.ids().contains(crate::performance::performance_id()));
        assert(before.entry(crate::performance::performance_id()) == registry.entry(crate::performance::performance_id()));
        assert(registry.ids().to_set().contains(crate::performance::performance_id()));
        assert(registry.ids().contains(crate::performance::performance_id()));
        assert(holds_builtin(registry, crate::tree_event::tree_event_id()));
        assert(crate::tree_event::tree_event_descriptor(registry.entry(crate::tree_event::tree_event_id()).descriptor));
        assert(holds_builtin(registry, crate::performance::performance_id()));
        assert(crate::performance::performance_descriptor(registry.entry(crate::performance::performance_id()).descriptor));
        assert(holds_builtin(registry, crate::safety::safety_id()));
        assert(crate::safety::safety_descriptor(registry.entry(crate::safety::safety_id()).descriptor));
    }
    let ghost before = registry;
    registry.register(crate::diagnostics::DiagnosticsExtension::new().info());
    proof {
        assert(registry.ids().to_set().contains(crate::diagnostics::diagnostics_id()));
        assert(registry.ids().contains(crate::diagnostics::diagnostics_id()));
        assert(before.ids().to_set().contains(crate::tree_event::tree_event_id()));
        assert(before.ids().contains(crate::tree_event::tree_event_id()));
        assert(before.entry(crate::tree_event::tree_event_id()) == registry.entry(crate::tree_event::tree_event_id()));
        assert(registry.ids().to_set().contains(crate::tree_event::tree_event_id()));
        assert(registry.ids().contains(crate::tree_event::tree_event_id()));
        assert(before.ids().to_set().contains(crate::performance::performance_id()));
        assert(before.ids().contains(crate::performance::performance_id()));
        assert(before.entry(crate::performance::performance_id()) == registry.entry(crate::performance::performance_id()));
        assert(registry.ids().to_set().contains(crate::performance::performance_id()));
        assert(registry.ids().contains(crate::performance::performance_id()));
        assert(before.ids().to_set().contains(crate::safety::safety_id()));
        assert(before.ids().contains(crate::safety::safety_id()));
        assert(before.entry(crate::safety::safety_id()) == registry.entry(crate::safety::safety_id()));
        assert(registry.ids().to_set().contains(crate::safety::safety_id()));
        assert(registry.ids().contains(crate::safety::safety_id()));
        assert(holds_builtin(registry, crate::tree_event::tree_event_id()));
        assert(crate::tree_event::tree_event_descriptor(registry.entry(crate::tree_event::tree_event_id()).descriptor));
        assert(holds_builtin(registry, crate::performance::performance_id()));
        assert(crate::performance::performance_descriptor(registry.entry(crate::performance::performance_id()).descriptor));
        assert(holds_builtin(registry, crate::safety::safety_id()));
        assert(crate::safety::safety_descriptor(registry.entry(crate::safety::safety_id()).descriptor));
        assert(holds_builtin(registry, crate::diagnostics::diagnostics_id()));
        assert(crate::diagnostics::diagnostics_descriptor(registry.entry(crate::diagnostics::diagnostics_id()).descriptor));
    }
    let ghost before = registry;
    registry.register(crate::security::SecurityExtension::new().info());
    proof {
        assert(registry.ids().to_set().contains(crate::security::security_id()));
        assert(registry.ids().contains(crate::security::security_id()));
        assert(before.ids().to_set().contains(crate::tree_event::tree_event_id()));
        assert(before.ids().contains(crate::tree_event::tree_event_id()));
        assert(before.entry(crate::tree_event::tree_event_id()) == registry.entry(crate::tree_event::tree_event_id()));
        assert(registry.ids().to_set().contains(crate::tree_event::tree_event_id()));
        assert(registry.ids().contains(crate::tree_event::tree_event_id()));
        assert(before.ids().to_set().contains(crate::performance::performance_id()));
        assert(before.ids().contains(crate::performance::performance_id()));
        assert(before.entry(crate::performance::performance_id()) == registry.entry(crate::performance::performance_id()));
        assert(registry.ids().to_set().contains(crate::performance::performance_id()));
        assert(registry.ids().contains(crate::performance::performance_id()));
        assert(before.ids().to_set().contains(crate::safety::safety_id()));
        assert(before.ids().contains(crate::safety::safety_id()));
        assert(before.entry(crate::safety::safety_id()) == registry.entry(crate::safety::safety_id()));
        assert(registry.ids().to_set().contains(crate::safety::safety_id()));
        assert(registry.ids().contains(crate::safety::safety_id()));
        assert(before.ids().to_set().contains(crate::diagnostics::diagnostics_id()));
        assert(before.ids().contains(crate::diagnostics::diagnostics_id()));
        assert(before.entry(crate::diagnostics::diagnostics_id()) == registry.entry(crate::diagnostics::diagnostics_id()));
        assert(registry.ids().to_set().contains(crate::diagnostics::diagnostics_id()));
        assert(registry.ids().contains(crate::diagnostics::diagnostics_id()));
        assert(holds_builtin(registry, crate::tree_event::tree_event_id()));
        assert(crate::tree_event::tree_event_descriptor(registry.entry(crate::tree_event::tree_event_id()).descriptor));
        assert(holds_builtin(registry, crate::performance::performance_id()));
        assert(crate::performance::performance_descriptor(registry.entry(crate::performance::performance_id()).descriptor));
        assert(holds_builtin(registry, crate::safety::safety_id()));
        assert(crate::safety::safety_descriptor(registry.entry(crate::safety::safety_id()).descriptor));
        assert(holds_builtin(registry, crate::diagnostics::diagnostics_id()));
        assert(crate::diagnostics::diagnostics_descriptor(registry.entry(crate::diagnostics::diagnostics_id()).descriptor));
        assert(holds_builtin(registry, crate::security::security_id()));
        assert(crate::security::security_descriptor(registry.entry(crate::security::security_id()).descriptor));
    }
    let ghost before = registry;
    registry.register(crate::live_reliability::LiveReliabilityExtension::new().info());
    proof {
        assert(registry.ids().to_set().contains(crate::live_reliability::live_reliability_id()));
        assert(registry.ids().contains(crate::live_reliability::live_reliability_id()));
        assert(before.ids().to_set().contains(crate::tree_event::tree_event_id()));
        assert(before.ids().contains(crate::tree_event::tree_event_id()));
        assert(before.entry(crate::tree_event::tree_event_id()) == registry.entry(crate::tree_event::tree_event_id()));
        assert(registry.ids().to_set().contains(crate::tree_event::tree_event_id()));
        assert(registry.ids().contains(crate::tree_event::tree_event_id()));
        assert(before.ids().to_set().contains(crate::performance::performance_id()));
        assert(before.ids().contains(crate::performance::performance_id()));
        assert(before.entry(crate::performance::performance_id()) == registry.entry(crate::performance::performance_id()));
        assert(registry.ids().to_set().contains(crate::performance::performance_id()));
        assert(registry.ids().contains(crate::performance::performance_id()));
        assert(before.ids().to_set().contains(crate::safety::safety_id()));
        assert(before.ids().contains(crate::safety::safety_id()));
        assert(before.entry(crate::safety::safety_id()) == registry.entry(crate::safety::safety_id()));
        assert(registry.ids().to_set().contains(crate::safety::safety_id()));
        assert(registry.ids().contains(crate::safety::safety_id()));
        assert(before.ids().to_set().contains(crate::diagnostics::diagnostics_id()));
        assert(before.ids().contains(crate::diagnostics::diagnostics_id()));
        assert(before.entry(crate::diagnostics::diagnostics_id()) == registry.entry(crate::diagnostics::diagnostics_id()));
        assert(registry.ids().to_set().contains(crate::diagnostics::diagnostics_id()));
        assert(registry.ids().contains(crate::diagnostics::diagnostics_id()));
        assert(before.ids().to_set().contains(crate::security::security_id()));
        assert(before.ids().contains(crate::security::security_id()));
        assert(before.entry(crate::security::security_id()) == registry.entry(crate::security::security_id()));
        assert(registry.ids().to_set().contains(crate::security::security_id()));
        assert(registry.ids().contains(crate::security::security_id()));
        assert(holds_builtin(registry, crate::tree_event::tree_event_id()));
        assert(crate::tree_event::tree_event_descriptor(registry.entry(crate::tree_event::tree_event_id()).descriptor));
        assert(holds_builtin(registry, crate::performance::performance_id()));
        assert(crate::performance::performance_descriptor(registry.entry(crate::performance::performance_id()).descriptor));
        assert(holds_builtin(registry, crate::safety::safety_id()));
        assert(crate::safety::safety_descriptor(registry.entry(crate::safety::safety_id()).descriptor));
        assert(holds_builtin(registry, crate::diagnostics::diagnostics_id()));
        assert(crate::diagnostics::diagnostics_descriptor(registry.entry(crate::diagnostics::diagnostics_id()).descriptor));
        assert(holds_builtin(registry, crate::security::security_id()));
        assert(crate::security::security_descriptor(registry.entry(crate::security::security_id()).descriptor));
        assert(holds_builtin(registry, crate::live_reliability::live_reliability_id()));
        assert(crate::live_reliability::live_reliability_descriptor(registry.entry(crate::live_reliability::live_reliability_id()).descriptor));
    }
    let ghost before = registry;
    registry.register(crate::reliability::ReliabilityExtension::new().info());
    proof {
        assert(registry.ids().to_set().contains(crate::reliability::reliability_id()));
        assert(registry.ids().contains(crate::reliability::reliability_id()));
        assert(before.ids().to_set().contains(crate::tree_event::tree_event_id()));
        assert(before.ids().contains(crate::tree_event::tree_event_id()));
        assert(before.entry(crate::tree_event::tree_event_id()) == registry.entry(crate::tree_event::tree_event_id()));
        assert(registry.ids().to_set().contains(crate::tree_event::tree_event_id()));
        assert(registry.ids().contains(crate::tree_event::tree_event_id()));
        assert(before.ids().to_set().contains(crate::performance::performance_id()));
        assert(before.ids().contains(crate::performance::performance_id()));
        assert(before.entry(crate::performance::performance_id()) == registry.entry(crate::performance::performance_id()));
        assert(registry.ids().to_set().contains(crate::performance::performance_id()));
        assert(registry.ids().contains(crate::performance::performance_id()));
        assert(before.ids().to_set().contains(crate::safety::safety_id()));
        assert(before.ids().contains(crate::safety::safety_id()));
        assert(before.entry(crate::safety::safety_id()) == registry.entry(crate::safety::safety_id()));
        assert(registry.ids().to_set().contains(crate::safety::safety_id()));
        assert(registry.ids().contains(crate::safety::safety_id()));
        assert(before.ids().to_set().contains(crate::diagnostics::diagnostics_id()));
        assert(before.ids().contains(crate::diagnostics::diagnostics_id()));
        assert(before.entry(crate::diagnostics::diagnostics_id()) == registry.entry(crate::diagnostics::diagnostics_id()));
        assert(registry.ids().to_set().contains(crate::diagnostics::diagnostics_id()));
        assert(registry.ids().contains(crate::diagnostics::diagnostics_id()));
        assert(before.ids().to_set().contains(crate::security::security_id()));
        assert(before.ids().contains(crate::security::security_id()));
        assert(before.entry(crate::security::security_id()) == registry.entry(crate::security::security_id()));
        assert(registry.ids().to_set().contains(crate::security::security_id()));
        assert(registry.ids().contains(crate::security::security_id()));
        assert(before.ids().to_set().contains(crate::live_reliability::live_reliability_id()));
        assert(before.ids().contains(crate::live_reliability::live_reliability_id()));
        assert(before.entry(crate::live_reliability::live_reliability_id()) == registry.entry(crate::live_reliability::live_reliability_id()));
        assert(registry.ids().to_set().contains(crate::live_reliability::live_reliability_id()));
        assert(registry.ids().contains(crate::live_reliability::live_reliability_id()));
        assert(holds_builtin(registry, crate::tree_event::tree_event_id()));
        assert(crate::tree_event::tree_event_descriptor(registry.entry(crate::tree_event::tree_event_id()).descriptor));
        assert(holds_builtin(registry, crate::performance::performance_id()));
        assert(crate::performance::performance_descriptor(registry.entry(crate::performance::performance_id()).descriptor));
        assert(holds_builtin(registry, crate::safety::safety_id()));
        assert(crate::safety::safety_descriptor(registry.entry(crate::safety::safety_id()).descriptor));
        assert(holds_builtin(registry, crate::diagnostics::diagnostics_id()));
        assert(crate::diagnostics::diagnostics_descriptor(registry.entry(crate::diagnostics::diagnostics_id()).descriptor));
        assert(holds_builtin(registry, crate::security::security_id()));
        assert(crate::security::security_descriptor(registry.entry(crate::security::security_id()).descriptor));
        assert(holds_builtin(registry, crate::live_reliability::live_reliability_id()));
        assert(crate::live_reliability::live_reliability_descriptor(registry.entry(crate::live_reliability::live_reliability_id()).descriptor));
        assert(holds_builtin(registry, crate::reliability::reliability_id()));
        assert(crate::reliability::reliability_descriptor(registry.entry(crate::reliability::reliability_id()).descriptor));
    }
    assert(registry.ids().to_set() =~= builtin_ids());
    proof {
        lemma_builtin_summaries_nonempty();
        assert forall|id: Seq<char>| #[trigger] registry.ids().contains(id) implies registry.entry(
            id,
        ).descriptor.summary@.len() > 0 && registry.entry(id).descriptor.diagnostic_codes@.len() > 0 by {
            assert(registry.ids().to_set().contains(id));
            assert(builtin_ids().contains(id));
            let d = registry.entry(id).descriptor;
            assert(string_views(d.diagnostic_codes@).len() == d.diagnostic_codes@.len());
        }
    }
    registry
}

/// Every built-in extension's summary text is non-empty.
proof fn lemma_builtin_summaries_nonempty()
    ensures
        forall|d: SupplementDescriptor| crate::tree_event::tree_event_descriptor(d) ==> d.summary@.len() > 0,
        forall|d: SupplementDescriptor| crate::performance::performance_descriptor(d) ==> d.summary@.len() > 0,
        forall|d: SupplementDescriptor| crate::safety::safety_descriptor(d) ==> d.summary@.len() > 0,
        forall|d: SupplementDescriptor| crate::diagnostics::diagnostics_descriptor(d) ==> d.summary@.len() > 0,
        forall|d: SupplementDescriptor| crate::security::security_descriptor(d) ==> d.summary@.len() > 0,
        forall|d: SupplementDescriptor| crate::live_reliability::live_reliability_descriptor(d) ==> d.summary@.len() > 0,
        forall|d: SupplementDescriptor| crate::reliability::reliability_descriptor(d) ==> d.summary@.len() > 0,
{
    assert forall|d: SupplementDescriptor| crate::tree_event::tree_event_descriptor(d) implies d.summary@.len() > 0 by {
        reveal_strlit("Domain-neutral tree-of-events structure — nodes, logical gates (AND/OR/NOT/XOR/K_OF_N), validation, traversal — for reliability, safety, security, and future domains to each interpret independently.");
        if d.summary@.len() == 0 {
            assert(d.summary@ =~= Seq::<char>::empty());
        }
    }
    assert forall|d: SupplementDescriptor| crate::performance::performance_descriptor(d) implies d.summary@.len() > 0 by {
        reveal_strlit("Declared latency/concurrency/throughput requirements (p50Ms/p95Ms/p99Ms, maxConcurrency, expectedRatePerSecond) for an Operation or a whole Event Tree, structurally enforced by generated code and validated live by a linked Barrier via performance.in_budget (barrierChecks).");
        if d.summary@.len() == 0 {
            assert(d.summary@ =~= Seq::<char>::empty());
        }
    }
    assert forall|d: SupplementDescriptor| crate::safety::safety_descriptor(d) implies d.summary@.len() > 0 by {
        reveal_strlit("Hazard classification against a severity/likelihood risk matrix, and Safety Integrity Level/independence declarations on core Barrier nodes; no new probability mathematics.");
        if d.summary@.len() == 0 {
            assert(d.summary@ =~= Seq::<char>::empty());
        }
    }
    assert forall|d: SupplementDescriptor| crate::diagnostics::diagnostics_descriptor(d) implies d.summary@.len() > 0 by {
        reveal_strlit("Declared telemetry-span-to-Fault-Tree-cause correlations and monitored-node anomaly rules; structural metadata only, no automated correlation or inference.");
        if d.summary@.len() == 0 {
            assert(d.summary@ =~= Seq::<char>::empty());
        }
    }
    assert forall|d: SupplementDescriptor| crate::security::security_descriptor(d) implies d.summary@.len() > 0 by {
        reveal_strlit("STRIDE-classified attack trees (reusing etdl.tree-event's Tree structure) and Controls mapped onto core Barrier nodes.");
        if d.summary@.len() == 0 {
            assert(d.summary@ =~= Seq::<char>::empty());
        }
    }
    assert forall|d: SupplementDescriptor| crate::live_reliability::live_reliability_descriptor(d) implies d.summary@.len() > 0 by {
        reveal_strlit("Live, decentralized, per-node fault-tree probability recomputation at runtime — an explicitly opt-in, authoritative exception to the rule that runtime observations never change compiled probabilities.");
        if d.summary@.len() == 0 {
            assert(d.summary@ =~= Seq::<char>::empty());
        }
    }
    assert forall|d: SupplementDescriptor| crate::reliability::reliability_descriptor(d) implies d.summary@.len() > 0 by {
        reveal_strlit("External reliability sources (artifacts of probability estimates) resolved to deterministic basic-event probabilities before fault-tree evaluation.");
        if d.summary@.len() == 0 {
            assert(d.summary@ =~= Seq::<char>::empty());
        }
    }
}

} // verus!

verus! {

/// The result of an extension that does no semantic processing.
#[derive(Debug)]
pub struct NoopExtensionResult;

impl NoopExtensionResult {
    pub fn extension_id(&self) -> (s: &'static str)
        ensures
            s@ == Seq::<char>::empty(),
    {
        proof {
            reveal_strlit("");
        }
        ""
    }
}

} // verus!
