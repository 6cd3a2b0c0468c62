//! Compiler integration for the Security Supplement (`etdl.security`).

use vstd::prelude::*;
use crate::diagnostic::{error_view, warning_view, views, push_diag, Diagnostic, DiagnosticView};
use crate::extension::{ExtensionInfo, SupplementDescriptor, make_descriptor, string_views};
use crate::model::{Document, Node};
use crate::refs::{node_target, node_target_of};
use crate::safety::{err, is_barrier};
use crate::text::{same, cat, cat3, cat5, cat7};
use crate::tree_event::{TreeOutline, TreeManifest, trees_outcome, parse_and_validate_trees, outline_ids};
use crate::validate::{declares, declares_supplement, list_contains};

verus! {

/// The supplement id this module implements.
pub open spec fn security_id() -> Seq<char> {
    "etdl.security"@
}

/// What the `security` extension's descriptor holds.
pub open spec fn security_descriptor(d: SupplementDescriptor) -> bool {
    &&& d.summary@ == "STRIDE-classified attack trees (reusing etdl.tree-event's Tree structure) and Controls mapped onto core Barrier nodes."@
    &&& d.schema.is_some() && d.schema.unwrap()@ == "etdl.security/1.0"@
    &&& string_views(d.diagnostic_codes@) == seq!["E-140"@, "E-141"@, "W-411"@]
    &&& string_views(d.required_supplements@) == seq!["etdl.tree-event"@]
}

/// The built-in extension for `etdl.security`.
#[derive(Debug, Default)]
pub struct SecurityExtension;

impl SecurityExtension {
    pub fn new() -> Self {
        SecurityExtension
    }

    pub fn id(&self) -> (s: &'static str)
        ensures
            s@ == security_id(),
    {
        "etdl.security"
    }

    pub fn version(&self) -> (s: &'static str)
        ensures
            s@ == "1.0"@,
    {
        "1.0"
    }

    /// Self-reported description of this supplement.
    pub fn descriptor(&self) -> (d: SupplementDescriptor)
        ensures
            security_descriptor(d),
    {
        let codes: [&str; 3] = ["E-140", "E-141", "W-411"];
        let required: [&str; 1] = ["etdl.tree-event"];
        let d = make_descriptor(
            "STRIDE-classified attack trees (reusing etdl.tree-event's Tree structure) and Controls mapped onto core Barrier nodes.",
            Some("etdl.security/1.0"),
            &codes,
            &required,
        );
        assert(codes@.map_values(|x: &str| x@) =~= seq!["E-140"@, "E-141"@, "W-411"@]);
        assert(required@.map_values(|x: &str| x@) =~= seq!["etdl.tree-event"@]);
        d
    }

    /// This extension's registry entry.
    pub fn info(&self) -> (e: ExtensionInfo)
        ensures
            e.id@ == security_id(),
            e.version@ == "1.0"@,
            security_descriptor(e.descriptor),
    {
        ExtensionInfo {
            id: crate::text::owned(self.id()),
            version: crate::text::owned(self.version()),
            descriptor: self.descriptor(),
        }
    }
}

} // verus!

verus! {

/// A `leafCategories` entry: a leaf id and the STRIDE category claimed
/// for it.
#[derive(Debug, Clone)]
pub struct LeafCategory {
    pub leaf: String,
    pub category: String,
}

/// One threat model under `x-security.threatModels`.
#[derive(Debug, Clone)]
pub struct ThreatModel {
    pub id: String,
    pub tree_ref: String,
    /// In leaf-id order.
    pub leaf_categories: Vec<LeafCategory>,
}

/// One control under `x-security.controls`.
#[derive(Debug, Clone)]
pub struct Control {
    pub id: String,
    pub node_ref: String,
    pub framework: Option<String>,
    pub control_id: String,
    pub mitigates: Vec<String>,
}

/// Every threat model and control that passed its checks.
#[derive(Debug, Clone)]
pub struct SecurityData {
    pub threat_models: Vec<ThreatModel>,
    pub controls: Vec<Control>,
}

/// The `x-security` field, deserialized: each list, or the text of the
/// error deserializing it gave; `None` for an absent list.
#[derive(Debug, Clone)]
pub struct SecurityManifest {
    pub threat_models: Option<Result<Vec<ThreatModel>, String>>,
    pub controls: Option<Result<Vec<Control>, String>>,
}

/// The STRIDE categories.
pub open spec fn stride(c: Seq<char>) -> bool {
    c == "spoofing"@ || c == "tampering"@ || c == "repudiation"@ || c
        == "information-disclosure"@ || c == "denial-of-service"@ || c == "elevation-of-privilege"@
}

pub fn is_stride(c: &str) -> (b: bool)
    ensures
        b == stride(c@),
{
    same(c, "spoofing") || same(c, "tampering") || same(c, "repudiation") || same(
        c,
        "information-disclosure",
    ) || same(c, "denial-of-service") || same(c, "elevation-of-privilege")
}

/// The position of the accepted tree a threat model names, or their number.
pub open spec fn tree_of(trees: Seq<TreeOutline>, tm: ThreatModel) -> int {
    crate::model::index_of(outline_ids(trees), tm.tree_ref@)
}

/// The diagnostics of the `leafCategories` entries `0..n` of threat model
/// `tm`, whose tree is `t`.
pub open spec fn category_diags(tm: ThreatModel, t: TreeOutline, n: int) -> Seq<DiagnosticView>
    decreases n,
{
    if n <= 0 {
        Seq::empty()
    } else {
        let e = tm.leaf_categories@[n - 1];
        category_diags(tm, t, n - 1) + (if stride(e.category@) {
            Seq::empty()
        } else {
            err(
                "E-140"@,
                "x-security: threat model '"@ + tm.id@ + "': leafCategories['"@ + e.leaf@
                    + "'] value '"@ + e.category@ + "' is not a STRIDE category"@,
            )
        }) + (if string_views(t.leaves@).contains(e.leaf@) {
            Seq::empty()
        } else {
            err(
                "E-141"@,
                "x-security: threat model '"@ + tm.id@ + "': leafCategories key '"@ + e.leaf@
                    + "' is not a leaf of tree '"@ + tm.tree_ref@ + "'"@,
            )
        })
    }
}

/// Whether `leafCategories` entry `k` of `tm` names a STRIDE category and
/// a leaf of `t`.
pub open spec fn category_ok(tm: ThreatModel, t: TreeOutline, k: int) -> bool {
    stride(tm.leaf_categories@[k].category@) && string_views(t.leaves@).contains(
        tm.leaf_categories@[k].leaf@,
    )
}

pub open spec fn categories_ok(tm: ThreatModel, t: TreeOutline) -> bool {
    forall|k: int| 0 <= k < tm.leaf_categories@.len() ==> #[trigger] category_ok(tm, t, k)
}

pub open spec fn tm_ids(tms: Seq<ThreatModel>) -> Seq<Seq<char>> {
    tms.map_values(|t: ThreatModel| t.id@)
}

/// The diagnostics of threat model `i`.
pub open spec fn threat_model_diags(trees: Seq<TreeOutline>, tms: Seq<ThreatModel>, i: int) -> Seq<
    DiagnosticView,
> {
    let tm = tms[i];
    let ti = tree_of(trees, tm);
    (if tm_ids(tms).take(i).contains(tm.id@) {
        err("E-140"@, "x-security: duplicate threat model id '"@ + tm.id@ + "'"@)
    } else {
        Seq::empty()
    }) + if ti < trees.len() {
        category_diags(tm, trees[ti], tm.leaf_categories@.len() as int)
    } else {
        err(
            "E-140"@,
            "x-security: threat model '"@ + tm.id@ + "': treeRef '"@ + tm.tree_ref@
                + "' does not name a tree declared in x-tree-event.trees"@,
        )
    }
}

pub open spec fn threat_model_ok(trees: Seq<TreeOutline>, tms: Seq<ThreatModel>, i: int) -> bool {
    let tm = tms[i];
    let ti = tree_of(trees, tm);
    !tm_ids(tms).take(i).contains(tm.id@) && ti < trees.len() && categories_ok(tm, trees[ti])
}

pub open spec fn threat_models_diags(trees: Seq<TreeOutline>, tms: Seq<ThreatModel>, n: int) -> Seq<
    DiagnosticView,
>
    decreases n,
{
    if n <= 0 {
        Seq::empty()
    } else {
        threat_models_diags(trees, tms, n - 1) + threat_model_diags(trees, tms, n - 1)
    }
}

pub open spec fn valid_threat_models(trees: Seq<TreeOutline>, tms: Seq<ThreatModel>, n: int) -> Seq<
    ThreatModel,
>
    decreases n,
{
    if n <= 0 {
        Seq::empty()
    } else {
        valid_threat_models(trees, tms, n - 1) + if threat_model_ok(trees, tms, n - 1) {
            seq![tms[n - 1]]
        } else {
            Seq::empty()
        }
    }
}

/// Whether a threat model whose tree resolves claims a category for `x`.
pub open spec fn categorized(trees: Seq<TreeOutline>, tms: Seq<ThreatModel>, x: Seq<char>) -> bool {
    exists|i: int, k: int|
        0 <= i < tms.len() && tree_of(trees, tms[i]) < trees.len() && 0 <= k
            < tms[i].leaf_categories@.len() && #[trigger] tms[i].leaf_categories@[k].leaf@ == x
}

/// Whether `x` is a leaf of the tree of some threat model whose tree
/// resolves (the union of those trees' leaves).
pub open spec fn known_leaf(trees: Seq<TreeOutline>, tms: Seq<ThreatModel>, x: Seq<char>) -> bool {
    exists|i: int|
        0 <= i < tms.len() && tree_of(trees, tms[i]) < trees.len() && string_views(
            #[trigger] trees[tree_of(trees, tms[i])].leaves@,
        ).contains(x)
}

pub open spec fn control_ids(cs: Seq<Control>) -> Seq<Seq<char>> {
    cs.map_values(|c: Control| c.id@)
}

/// The diagnostics of mitigation entries `0..n` of control `c`.
pub open spec fn mitigation_diags(
    trees: Seq<TreeOutline>,
    tms: Seq<ThreatModel>,
    c: Control,
    n: int,
) -> Seq<DiagnosticView>
    decreases n,
{
    if n <= 0 {
        Seq::empty()
    } else {
        let x = c.mitigates@[n - 1]@;
        mitigation_diags(trees, tms, c, n - 1) + if !known_leaf(trees, tms, x) {
            err(
                "E-141"@,
                "x-security: control '"@ + c.id@ + "': mitigates entry '"@ + x
                    + "' is not a leaf node id of any declared threat model's tree"@,
            )
        } else if !categorized(trees, tms, x) {
            seq![
                warning_view(
                    "W-411"@,
                    "x-security: control '"@ + c.id@ + "': mitigates entry '"@ + x
                        + "' is not categorized by any declared threat model's leafCategories"@,
                ),
            ]
        } else {
            Seq::empty()
        }
    }
}

/// The diagnostics of control `i`.
pub open spec fn control_diags(
    doc: Document,
    trees: Seq<TreeOutline>,
    tms: Seq<ThreatModel>,
    cs: Seq<Control>,
    i: int,
) -> Seq<DiagnosticView> {
    let c = cs[i];
    (if control_ids(cs).take(i).contains(c.id@) {
        err("E-141"@, "x-security: duplicate control id '"@ + c.id@ + "'"@)
    } else {
        Seq::empty()
    }) + (if c.mitigates@.len() == 0 {
        err("E-141"@, "x-security: control '"@ + c.id@ + "': mitigates must be non-empty"@)
    } else {
        Seq::empty()
    }) + (if !is_barrier(node_target(doc, c.node_ref@)) {
        err(
            "E-141"@,
            "x-security: control '"@ + c.id@ + "': nodeRef '"@ + c.node_ref@
                + "' does not resolve to a Barrier node"@,
        )
    } else {
        Seq::empty()
    }) + mitigation_diags(trees, tms, c, c.mitigates@.len() as int)
}

pub open spec fn control_ok(
    doc: Document,
    trees: Seq<TreeOutline>,
    tms: Seq<ThreatModel>,
    cs: Seq<Control>,
    i: int,
) -> bool {
    let c = cs[i];
    &&& !control_ids(cs).take(i).contains(c.id@)
    &&& c.mitigates@.len() > 0
    &&& is_barrier(node_target(doc, c.node_ref@))
    &&& forall|k: int| 0 <= k < c.mitigates@.len() ==> known_leaf(trees, tms, #[trigger] c.mitigates@[k]@)
}

pub open spec fn controls_diags(
    doc: Document,
    trees: Seq<TreeOutline>,
    tms: Seq<ThreatModel>,
    cs: Seq<Control>,
    n: int,
) -> Seq<DiagnosticView>
    decreases n,
{
    if n <= 0 {
        Seq::empty()
    } else {
        controls_diags(doc, trees, tms, cs, n - 1) + control_diags(doc, trees, tms, cs, n - 1)
    }
}

pub open spec fn valid_controls(
    doc: Document,
    trees: Seq<TreeOutline>,
    tms: Seq<ThreatModel>,
    cs: Seq<Control>,
    n: int,
) -> Seq<Control>
    decreases n,
{
    if n <= 0 {
        Seq::empty()
    } else {
        valid_controls(doc, trees, tms, cs, n - 1) + if control_ok(doc, trees, tms, cs, n - 1) {
            seq![cs[n - 1]]
        } else {
            Seq::empty()
        }
    }
}

/// The accepted threat models, the accepted controls and the diagnostics
/// of the security validation.
pub open spec fn security_outcome(
    doc: Document,
    tree_manifest: Option<TreeManifest>,
    manifest: Option<SecurityManifest>,
) -> (Seq<ThreatModel>, Seq<Control>, Seq<DiagnosticView>) {
    if !declares(doc, "etdl.security"@) || manifest is None {
        (Seq::empty(), Seq::empty(), Seq::empty())
    } else {
        let trees = trees_outcome(doc, tree_manifest).0;
        let m = manifest->0;
        let (tms, all, td) = match m.threat_models {
            None => (Seq::<ThreatModel>::empty(), Seq::<ThreatModel>::empty(), Seq::<DiagnosticView>::empty()),
            Some(Err(e)) => (
                Seq::<ThreatModel>::empty(),
                Seq::<ThreatModel>::empty(),
                err("E-140"@, "x-security: invalid threat model manifest: "@ + e@),
            ),
            Some(Ok(v)) => (
                valid_threat_models(trees, v@, v@.len() as int),
                v@,
                threat_models_diags(trees, v@, v@.len() as int),
            ),
        };
        let (cs, cd) = match m.controls {
            None => (Seq::<Control>::empty(), Seq::<DiagnosticView>::empty()),
            Some(Err(e)) => (
                Seq::<Control>::empty(),
                err("E-141"@, "x-security: invalid control manifest: "@ + e@),
            ),
            Some(Ok(v)) => (
                valid_controls(doc, trees, all, v@, v@.len() as int),
                controls_diags(doc, trees, all, v@, v@.len() as int),
            ),
        };
        (tms, cs, td + cd)
    }
}

} // verus!

verus! {

fn outline_position(trees: &Vec<TreeOutline>, name: &str) -> (r: usize)
    ensures
        r == crate::model::index_of(outline_ids(trees@), name@),
{
    let ghost ids = outline_ids(trees@);
    let mut i: usize = 0;
    while i < trees.len()
        invariant
            i <= trees@.len(),
            ids == outline_ids(trees@),
            forall|j: int| 0 <= j < i ==> ids[j] != name@,
        decreases trees.len() - i,
    {
        if same(trees[i].id.as_str(), name) {
            proof {
                crate::model::lemma_index_of_is(ids, name@, i as int);
            }
            return i;
        }
        i = i + 1;
    }
    proof {
        crate::model::lemma_index_of_is(ids, name@, i as int);
    }
    i
}

fn push_error(out: &mut Vec<Diagnostic>, code: &str, msg: String)
    ensures
        views(final(out)@) == views(old(out)@) + err(code@, msg@),
{
    push_diag(out, Diagnostic::error(code, msg));
    assert(views(out@) =~= views(old(out)@) + err(code@, msg@));
}

fn tm_id_among(tms: &Vec<ThreatModel>, n: usize, id: &str) -> (b: bool)
    requires
        n <= tms@.len(),
    ensures
        b == tm_ids(tms@).take(n as int).contains(id@),
{
    let mut i: usize = 0;
    while i < n
        invariant
            n <= tms@.len(),
            i <= n,
            forall|j: int| 0 <= j < i ==> tms@[j].id@ != id@,
        decreases n - i,
    {
        if same(tms[i].id.as_str(), id) {
            assert(tm_ids(tms@).take(n as int)[i as int] == id@);
            return true;
        }
        i = i + 1;
    }
    false
}

fn control_id_among(cs: &Vec<Control>, n: usize, id: &str) -> (b: bool)
    requires
        n <= cs@.len(),
    ensures
        b == control_ids(cs@).take(n as int).contains(id@),
{
    let mut i: usize = 0;
    while i < n
        invariant
            n <= cs@.len(),
            i <= n,
            forall|j: int| 0 <= j < i ==> cs@[j].id@ != id@,
        decreases n - i,
    {
        if same(cs[i].id.as_str(), id) {
            assert(control_ids(cs@).take(n as int)[i as int] == id@);
            return true;
        }
        i = i + 1;
    }
    false
}

fn check_threat_model(
    trees: &Vec<TreeOutline>,
    tms: &Vec<ThreatModel>,
    i: usize,
    out: &mut Vec<Diagnostic>,
) -> (ok: bool)
    requires
        i < tms@.len(),
    ensures
        views(final(out)@) == views(old(out)@) + threat_model_diags(trees@, tms@, i as int),
        ok == threat_model_ok(trees@, tms@, i as int),
{
    let tm = &tms[i];
    let ghost d0 = views(out@);
    let dup = tm_id_among(tms, i, tm.id.as_str());
    if dup {
        push_error(out, "E-140", cat3("x-security: duplicate threat model id '", tm.id.as_str(), "'"));
    }
    let ghost d1 = views(out@);
    let ti = outline_position(trees, tm.tree_ref.as_str());
    proof {
        crate::model::lemma_index_of(outline_ids(trees@), tm.tree_ref@);
    }
    if ti < trees.len() {
        let t = &trees[ti];
        let mut all_ok = true;
        let mut k: usize = 0;
        while k < tm.leaf_categories.len()
            invariant
                k <= tm.leaf_categories@.len(),
                views(out@) == d1 + category_diags(*tm, *t, k as int),
                all_ok == forall|j: int| 0 <= j < k ==> #[trigger] category_ok(*tm, *t, j),
            decreases tm.leaf_categories.len() - k,
        {
            let e = &tm.leaf_categories[k];
            let good = is_stride(e.category.as_str());
            if !good {
                push_error(out, "E-140", cat7("x-security: threat model '", tm.id.as_str(),
                    "': leafCategories['", e.leaf.as_str(), "'] value '", e.category.as_str(),
                    "' is not a STRIDE category"));
            }
            let is_leaf = list_contains(&t.leaves, e.leaf.as_str());
            if !is_leaf {
                push_error(out, "E-141", cat7("x-security: threat model '", tm.id.as_str(),
                    "': leafCategories key '", e.leaf.as_str(), "' is not a leaf of tree '",
                    tm.tree_ref.as_str(), "'"));
            }
            if !(good && is_leaf) {
                all_ok = false;
            }
            assert(good == stride(tm.leaf_categories@[k as int].category@));
            assert(is_leaf == string_views(t.leaves@).contains(tm.leaf_categories@[k as int].leaf@));
            proof {
                if all_ok {
                    assert forall|j: int| 0 <= j < k + 1 implies #[trigger] category_ok(*tm, *t, j) by {
                        if j == k {
                            assert(category_ok(*tm, *t, k as int));
                        }
                    }
                } else if !(good && is_leaf) {
                    assert(!category_ok(*tm, *t, k as int));
                } else {
                    let w = choose|j: int| 0 <= j < k && !#[trigger] category_ok(*tm, *t, j);
                    assert(!category_ok(*tm, *t, w));
                }
            }
            k = k + 1;
        }
        assert(views(out@) =~= d0 + threat_model_diags(trees@, tms@, i as int));
        !dup && all_ok
    } else {
        push_error(out, "E-140", cat5("x-security: threat model '", tm.id.as_str(), "': treeRef '",
            tm.tree_ref.as_str(), "' does not name a tree declared in x-tree-event.trees"));
        assert(views(out@) =~= d0 + threat_model_diags(trees@, tms@, i as int));
        false
    }
}

fn is_categorized(trees: &Vec<TreeOutline>, tms: &Vec<ThreatModel>, x: &str) -> (b: bool)
    ensures
        b == categorized(trees@, tms@, x@),
{
    let mut i: usize = 0;
    while i < tms.len()
        invariant
            i <= tms@.len(),
            forall|a: int, k: int|
                0 <= a < i && tree_of(trees@, tms@[a]) < trees@.len() && 0 <= k
                    < tms@[a].leaf_categories@.len() ==> #[trigger] tms@[a].leaf_categories@[k].leaf@
                    != x@,
        decreases tms.len() - i,
    {
        let tm = &tms[i];
        let ti = outline_position(trees, tm.tree_ref.as_str());
        if ti < trees.len() {
            let mut k: usize = 0;
            while k < tm.leaf_categories.len()
                invariant
                    k <= tm.leaf_categories@.len(),
                    i < tms@.len(),
                    *tm == tms@[i as int],
                    ti == tree_of(trees@, tms@[i as int]),
                    ti < trees@.len(),
                    forall|j: int| 0 <= j < k ==> tm.leaf_categories@[j].leaf@ != x@,
                decreases tm.leaf_categories.len() - k,
            {
                if same(tm.leaf_categories[k].leaf.as_str(), x) {
                    assert(tms@[i as int].leaf_categories@[k as int].leaf@ == x@);
                    return true;
                }
                k = k + 1;
            }
        }
        i = i + 1;
    }
    false
}

fn is_known_leaf(trees: &Vec<TreeOutline>, tms: &Vec<ThreatModel>, x: &str) -> (b: bool)
    ensures
        b == known_leaf(trees@, tms@, x@),
{
    let mut i: usize = 0;
    while i < tms.len()
        invariant
            i <= tms@.len(),
            forall|a: int|
                0 <= a < i && tree_of(trees@, tms@[a]) < trees@.len() ==> !string_views(
                    #[trigger] trees@[tree_of(trees@, tms@[a])].leaves@,
                ).contains(x@),
        decreases tms.len() - i,
    {
        let ti = outline_position(trees, tms[i].tree_ref.as_str());
        if ti < trees.len() {
            if list_contains(&trees[ti].leaves, x) {
                assert(ti == tree_of(trees@, tms@[i as int]));
                assert(string_views(trees@[tree_of(trees@, tms@[i as int])].leaves@).contains(x@));
                return true;
            }
        }
        i = i + 1;
    }
    false
}

fn check_control(
    doc: &Document,
    trees: &Vec<TreeOutline>,
    tms: &Vec<ThreatModel>,
    cs: &Vec<Control>,
    i: usize,
    out: &mut Vec<Diagnostic>,
) -> (ok: bool)
    requires
        i < cs@.len(),
    ensures
        views(final(out)@) == views(old(out)@) + control_diags(*doc, trees@, tms@, cs@, i as int),
        ok == control_ok(*doc, trees@, tms@, cs@, i as int),
{
    let c = &cs[i];
    let ghost d0 = views(out@);
    let dup = control_id_among(cs, i, c.id.as_str());
    if dup {
        push_error(out, "E-141", cat3("x-security: duplicate control id '", c.id.as_str(), "'"));
    }
    let empty = c.mitigates.len() == 0;
    if empty {
        push_error(out, "E-141", cat3("x-security: control '", c.id.as_str(),
            "': mitigates must be non-empty"));
    }
    let target = node_target_of(doc, c.node_ref.as_str());
    let is_b = match target {
        Some(Node::Barrier(_)) => true,
        _ => false,
    };
    if !is_b {
        push_error(out, "E-141", cat5("x-security: control '", c.id.as_str(), "': nodeRef '",
            c.node_ref.as_str(), "' does not resolve to a Barrier node"));
    }
    let ghost d1 = views(out@);
    let mut all_known = true;
    let mut k: usize = 0;
    while k < c.mitigates.len()
        invariant
            k <= c.mitigates@.len(),
            views(out@) == d1 + mitigation_diags(trees@, tms@, *c, k as int),
            all_known == forall|j: int| 0 <= j < k ==> known_leaf(trees@, tms@, #[trigger] c.mitigates@[j]@),
        decreases c.mitigates.len() - k,
    {
        let x = c.mitigates[k].as_str();
        if !is_known_leaf(trees, tms, x) {
            push_error(out, "E-141", cat5("x-security: control '", c.id.as_str(),
                "': mitigates entry '", x,
                "' is not a leaf node id of any declared threat model's tree"));
            all_known = false;
        } else if !is_categorized(trees, tms, x) {
            push_diag(out, Diagnostic::warning("W-411", cat5("x-security: control '", c.id.as_str(),
                "': mitigates entry '", x,
                "' is not categorized by any declared threat model's leafCategories")));
        }
        k = k + 1;
    }
    assert(views(out@) =~= d0 + control_diags(*doc, trees@, tms@, cs@, i as int));
    !dup && !empty && is_b && all_known
}

/// Validate the threat models and controls of `x-security` (given as
/// deserialized by the caller) against the trees of `x-tree-event`, when
/// the document declares `etdl.security`: E-140 repeated threat model ids,
/// unresolved tree references, non-STRIDE categories, an undeserializable
/// list; E-141 categorized non-leaves, repeated control ids, empty or
/// unknown mitigations, controls on anything but a Barrier node, an
/// undeserializable list; W-411 a mitigated leaf no threat model
/// categorizes. Returns what passed, with the diagnostics.
pub fn parse_and_validate_security(
    doc: &Document,
    tree_manifest: Option<TreeManifest>,
    manifest: Option<SecurityManifest>,
) -> (r: (SecurityData, Vec<Diagnostic>))
    ensures
        r.0.threat_models@ == security_outcome(*doc, tree_manifest, manifest).0,
        r.0.controls@ == security_outcome(*doc, tree_manifest, manifest).1,
        views(r.1@) == security_outcome(*doc, tree_manifest, manifest).2,
{
    let mut diagnostics: Vec<Diagnostic> = Vec::new();
    let mut data = SecurityData { threat_models: Vec::new(), controls: Vec::new() };
    assert(views(diagnostics@) =~= Seq::<DiagnosticView>::empty());
    if !declares_supplement(doc, "etdl.security") {
        return (data, diagnostics);
    }
    let m = match manifest {
        Some(m) => m,
        None => {
            return (data, diagnostics);
        },
    };
    let (trees, _tree_diagnostics) = parse_and_validate_trees(doc, tree_manifest);
    let SecurityManifest { threat_models, controls } = m;
    let mut all: Vec<ThreatModel> = Vec::new();
    let mut tm_ok: Vec<bool> = Vec::new();
    match threat_models {
        Some(Ok(v)) => {
            let mut i: usize = 0;
            while i < v.len()
                invariant
                    i <= v@.len(),
                    tm_ok@.len() == i,
                    forall|j: int| 0 <= j < i ==> tm_ok@[j] == threat_model_ok(trees@, v@, j),
                    views(diagnostics@) == threat_models_diags(trees@, v@, i as int),
                decreases v.len() - i,
            {
                let b = check_threat_model(&trees, &v, i, &mut diagnostics);
                tm_ok.push(b);
                i = i + 1;
            }
            all = v;
        },
        Some(Err(e)) => {
            push_error(&mut diagnostics, "E-140", cat("x-security: invalid threat model manifest: ",
                e.as_str()));
        },
        None => {},
    }
    let ghost td = views(diagnostics@);
    let ghost av = all@;
    match controls {
        Some(Ok(v)) => {
            let ghost vs = v@;
            let mut ok: Vec<bool> = Vec::new();
            let mut i: usize = 0;
            while i < v.len()
                invariant
                    i <= v@.len(),
                    vs == v@,
                    av == all@,
                    ok@.len() == i,
                    forall|j: int| 0 <= j < i ==> ok@[j] == control_ok(*doc, trees@, all@, vs, j),
                    views(diagnostics@) == td + controls_diags(*doc, trees@, all@, vs, i as int),
                decreases v.len() - i,
            {
                let b = check_control(doc, &trees, &all, &v, i, &mut diagnostics);
                ok.push(b);
                i = i + 1;
            }
            let mut rest = v;
            let mut k: usize = 0;
            while k < ok.len()
                invariant
                    ok@.len() == vs.len(),
                    k <= vs.len(),
                    av == all@,
                    data.threat_models@ == Seq::<ThreatModel>::empty(),
                    forall|j: int| 0 <= j < vs.len() ==> ok@[j] == control_ok(*doc, trees@, all@, vs, j),
                    rest@ == vs.skip(k as int),
                    data.controls@ == valid_controls(*doc, trees@, all@, vs, k as int),
                decreases ok.len() - k,
            {
                assert(rest@.len() > 0 && rest@[0] == vs[k as int]);
                let c = rest.remove(0);
                if ok[k] {
                    data.controls.push(c);
                }
                assert(rest@ =~= vs.skip(k + 1));
                assert(data.controls@ =~= valid_controls(*doc, trees@, all@, vs, k + 1));
                k = k + 1;
            }
        },
        Some(Err(e)) => {
            push_error(&mut diagnostics, "E-141", cat("x-security: invalid control manifest: ",
                e.as_str()));
        },
        None => {},
    }
    let ghost cs_final = data.controls@;
    assert(cs_final == security_outcome(*doc, tree_manifest, manifest).1);
    let mut rest = all;
    let mut k: usize = 0;
    while k < tm_ok.len()
        invariant
            tm_ok@.len() == av.len() || (tm_ok@.len() == 0 && av.len() == 0),
            k <= tm_ok@.len(),
            forall|j: int| 0 <= j < tm_ok@.len() ==> tm_ok@[j] == threat_model_ok(trees@, av, j),
            rest@ == av.skip(k as int),
            data.threat_models@ == valid_threat_models(trees@, av, k as int),
            data.controls@ == cs_final,
        decreases tm_ok.len() - k,
    {
        assert(rest@.len() > 0 && rest@[0] == av[k as int]);
        let t = rest.remove(0);
        if tm_ok[k] {
            data.threat_models.push(t);
        }
        assert(rest@ =~= av.skip(k + 1));
        assert(data.threat_models@ =~= valid_threat_models(trees@, av, k + 1));
        k = k + 1;
    }
    assert(views(diagnostics@) =~= security_outcome(*doc, tree_manifest, manifest).2);
    (data, diagnostics)
}

} // verus!

verus! {

/// What the security extension's processing step yields.
#[derive(Debug)]
pub struct SecurityResult {
    pub threat_models: Vec<ThreatModel>,
    pub controls: Vec<Control>,
}

impl SecurityResult {
    pub fn extension_id(&self) -> (s: &'static str)
        ensures
            s@ == security_id(),
    {
        "etdl.security"
    }
}

} // verus!
