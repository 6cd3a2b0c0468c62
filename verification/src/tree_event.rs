//! Compiler integration for the Generic Tree Event Supplement (`etdl.tree-event`).

use vstd::prelude::*;
use crate::diagnostic::{error_view, views, push_diag, Diagnostic, DiagnosticView};
use crate::extension::{ExtensionInfo, SupplementDescriptor, make_descriptor, string_views};
use crate::model::Document;
use crate::text::{same, cat, cat3};
use crate::validate::{declares, declares_supplement};

verus! {

/// The supplement id this module implements.
pub open spec fn tree_event_id() -> Seq<char> {
    "etdl.tree-event"@
}

/// What the `tree_event` extension's descriptor holds.
pub open spec fn tree_event_descriptor(d: SupplementDescriptor) -> bool {
    &&& d.summary@ == "Domain-neutral tree-of-events structure — nodes, logical gates (AND/OR/NOT/XOR/K_OF_N), validation, traversal — for reliability, safety, security, and future domains to each interpret independently."@
    &&& d.schema.is_none()
    &&& string_views(d.diagnostic_codes@) == seq!["E-120"@, "E-121"@, "E-122"@]
    &&& string_views(d.required_supplements@) == Seq::<Seq<char>>::empty()
}

/// The built-in extension for `etdl.tree-event`.
#[derive(Debug, Default)]
pub struct TreeEventExtension;

impl TreeEventExtension {
    pub fn new() -> Self {
        TreeEventExtension
    }

    pub fn id(&self) -> (s: &'static str)
        ensures
            s@ == tree_event_id(),
    {
        "etdl.tree-event"
    }

    pub fn version(&self) -> (s: &'static str)
        ensures
            s@ == "1.0"@,
    {
        "1.0"
    }

    /// Self-reported description of this supplement.
    pub fn descriptor(&self) -> (d: SupplementDescriptor)
        ensures
            tree_event_descriptor(d),
    {
        let codes: [&str; 3] = ["E-120", "E-121", "E-122"];
        let required: [&str; 0] = [];
        let d = make_descriptor(
            "Domain-neutral tree-of-events structure — nodes, logical gates (AND/OR/NOT/XOR/K_OF_N), validation, traversal — for reliability, safety, security, and future domains to each interpret independently.",
            None,
            &codes,
            &required,
        );
        assert(codes@.map_values(|x: &str| x@) =~= seq!["E-120"@, "E-121"@, "E-122"@]);
        assert(required@.map_values(|x: &str| x@) =~= Seq::<Seq<char>>::empty());
        d
    }

    /// This extension's registry entry.
    pub fn info(&self) -> (e: ExtensionInfo)
        ensures
            e.id@ == tree_event_id(),
            e.version@ == "1.0"@,
            tree_event_descriptor(e.descriptor),
    {
        ExtensionInfo {
            id: crate::text::owned(self.id()),
            version: crate::text::owned(self.version()),
            descriptor: self.descriptor(),
        }
    }
}

} // verus!

verus! {

/// What a node of a generic tree is: a leaf, perhaps referring to an
/// event, or a gate over its children.
#[derive(Debug, Clone)]
pub enum OutlineNodeKind {
    Leaf { event_ref: Option<String> },
    Gate { children: Vec<String> },
}

/// A node of a generic tree, under its id.
#[derive(Debug, Clone)]
pub struct OutlineNode {
    pub id: String,
    pub description: Option<String>,
    pub kind: OutlineNodeKind,
}

/// A tree declared under `x-tree-event.trees`, as the checks read it: its
/// id, the ids of its leaves, the text of every structural problem the
/// tree library found in it (none for a valid tree), and its nodes in
/// node-id order.
#[derive(Debug, Clone)]
pub struct TreeOutline {
    pub id: String,
    pub leaves: Vec<String>,
    pub problems: Vec<String>,
    pub nodes: Vec<OutlineNode>,
}

/// The `x-tree-event` field: its `trees` list, deserialized, or the text
/// of the error deserializing it gave; `None` when `trees` is missing.
#[derive(Debug, Clone)]
pub struct TreeManifest {
    pub trees: Option<Result<Vec<TreeOutline>, String>>,
}

pub open spec fn outline_ids(ts: Seq<TreeOutline>) -> Seq<Seq<char>> {
    ts.map_values(|t: TreeOutline| t.id@)
}

/// The diagnostics of candidate tree `i`: E-122 a repeated id, else E-121
/// per structural problem.
pub open spec fn outline_diags(ts: Seq<TreeOutline>, i: int) -> Seq<DiagnosticView> {
    let t = ts[i];
    if outline_ids(ts).take(i).contains(t.id@) {
        seq![error_view("E-122"@, "x-tree-event: duplicate tree id '"@ + t.id@ + "'"@)]
    } else {
        t.problems@.map_values(|p: String| error_view("E-121"@, "x-tree-event: "@ + p@))
    }
}

pub open spec fn outline_ok(ts: Seq<TreeOutline>, i: int) -> bool {
    !outline_ids(ts).take(i).contains(ts[i].id@) && ts[i].problems@.len() == 0
}

pub open spec fn outlines_diags(ts: Seq<TreeOutline>, n: int) -> Seq<DiagnosticView>
    decreases n,
{
    if n <= 0 {
        Seq::empty()
    } else {
        outlines_diags(ts, n - 1) + outline_diags(ts, n - 1)
    }
}

pub open spec fn valid_outlines(ts: Seq<TreeOutline>, n: int) -> Seq<TreeOutline>
    decreases n,
{
    if n <= 0 {
        Seq::empty()
    } else {
        valid_outlines(ts, n - 1) + if outline_ok(ts, n - 1) {
            seq![ts[n - 1]]
        } else {
            Seq::empty()
        }
    }
}

/// The accepted trees and the diagnostics of the tree-event validation.
pub open spec fn trees_outcome(doc: Document, manifest: Option<TreeManifest>) -> (
    Seq<TreeOutline>,
    Seq<DiagnosticView>,
) {
    if !declares(doc, "etdl.tree-event"@) || manifest is None {
        (Seq::empty(), Seq::empty())
    } else {
        match manifest->0.trees {
            None => (
                Seq::empty(),
                seq![error_view("E-120"@, "x-tree-event: missing required 'trees' field"@)],
            ),
            Some(Err(e)) => (
                Seq::empty(),
                seq![error_view("E-120"@, "x-tree-event: invalid tree manifest: "@ + e@)],
            ),
            Some(Ok(v)) => (valid_outlines(v@, v@.len() as int), outlines_diags(v@, v@.len() as int)),
        }
    }
}

fn outline_id_among(ts: &Vec<TreeOutline>, n: usize, id: &str) -> (b: bool)
    requires
        n <= ts@.len(),
    ensures
        b == outline_ids(ts@).take(n as int).contains(id@),
{
    let mut i: usize = 0;
    while i < n
        invariant
            n <= ts@.len(),
            i <= n,
            forall|j: int| 0 <= j < i ==> ts@[j].id@ != id@,
        decreases n - i,
    {
        if same(ts[i].id.as_str(), id) {
            assert(outline_ids(ts@).take(n as int)[i as int] == id@);
            return true;
        }
        i = i + 1;
    }
    false
}

/// Validate the trees of `x-tree-event` (given as the caller read them),
/// when the document declares `etdl.tree-event`: E-120 a missing or
/// undeserializable `trees` list, E-122 a repeated tree id, E-121 each
/// structural problem of a tree. Returns the trees that passed.
pub fn parse_and_validate_trees(doc: &Document, manifest: Option<TreeManifest>) -> (r: (
    Vec<TreeOutline>,
    Vec<Diagnostic>,
))
    ensures
        r.0@ == trees_outcome(*doc, manifest).0,
        views(r.1@) == trees_outcome(*doc, manifest).1,
{
    let mut diagnostics: Vec<Diagnostic> = Vec::new();
    let mut trees: Vec<TreeOutline> = Vec::new();
    assert(views(diagnostics@) =~= Seq::<DiagnosticView>::empty());
    if !declares_supplement(doc, "etdl.tree-event") {
        return (trees, diagnostics);
    }
    let m = match manifest {
        Some(m) => m,
        None => {
            return (trees, diagnostics);
        },
    };
    let v = match m.trees {
        None => {
            push_diag(&mut diagnostics, Diagnostic::error("E-120",
                crate::text::owned("x-tree-event: missing required 'trees' field")));
            assert(views(diagnostics@) =~= trees_outcome(*doc, manifest).1);
            return (trees, diagnostics);
        },
        Some(Err(e)) => {
            push_diag(&mut diagnostics, Diagnostic::error("E-120", cat("x-tree-event: invalid tree manifest: ",
                e.as_str())));
            assert(views(diagnostics@) =~= trees_outcome(*doc, manifest).1);
            return (trees, diagnostics);
        },
        Some(Ok(v)) => v,
    };
    let ghost all = v@;
    let mut ok: Vec<bool> = Vec::new();
    let mut i: usize = 0;
    while i < v.len()
        invariant
            i <= v@.len(),
            all == v@,
            ok@.len() == i,
            forall|j: int| 0 <= j < i ==> ok@[j] == outline_ok(all, j),
            views(diagnostics@) == outlines_diags(all, i as int),
        decreases v.len() - i,
    {
        let t = &v[i];
        let ghost before = views(diagnostics@);
        if outline_id_among(&v, i, t.id.as_str()) {
            push_diag(&mut diagnostics, Diagnostic::error("E-122", cat3("x-tree-event: duplicate tree id '",
                t.id.as_str(), "'")));
            ok.push(false);
        } else {
            let mut k: usize = 0;
            while k < t.problems.len()
                invariant
                    k <= t.problems@.len(),
                    views(diagnostics@) == before + t.problems@.take(k as int).map_values(
                        |p: String| error_view("E-121"@, "x-tree-event: "@ + p@),
                    ),
                decreases t.problems.len() - k,
            {
                push_diag(&mut diagnostics, Diagnostic::error("E-121", cat("x-tree-event: ",
                    t.problems[k].as_str())));
                assert(t.problems@.take(k + 1) =~= t.problems@.take(k as int).push(t.problems@[k as int]));
                k = k + 1;
            }
            assert(t.problems@.take(t.problems@.len() as int) =~= t.problems@);
            ok.push(t.problems.len() == 0);
        }
        assert(views(diagnostics@) =~= before + outline_diags(all, i as int));
        i = i + 1;
    }
    let mut rest = v;
    let mut k: usize = 0;
    while k < ok.len()
        invariant
            ok@.len() == all.len(),
            k <= all.len(),
            forall|j: int| 0 <= j < all.len() ==> ok@[j] == outline_ok(all, j),
            rest@ == all.skip(k as int),
            trees@ == valid_outlines(all, k as int),
        decreases ok.len() - k,
    {
        assert(rest@.len() > 0 && rest@[0] == all[k as int]);
        let t = rest.remove(0);
        if ok[k] {
            trees.push(t);
        }
        assert(rest@ =~= all.skip(k + 1));
        assert(trees@ =~= valid_outlines(all, k + 1));
        k = k + 1;
    }
    (trees, diagnostics)
}

} // verus!
