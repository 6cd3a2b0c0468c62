//! Compiler integration for the Live Reliability Supplement (`etdl.live-reliability`).

use vstd::prelude::*;
use crate::diagnostic::{error_view, warning_view, views, push_diag, Diagnostic, DiagnosticView};
use crate::extension::{ExtensionInfo, SupplementDescriptor, make_descriptor, string_views};
use crate::fault_structure::{fault_tree_names, be_ids};
use crate::model::{Document, FaultTree, FaultTreeEntry, Measure, index_of};
use crate::safety::err;
use crate::text::{same, cat, cat3, cat5, cat7};
use crate::validate::{declares, declares_supplement};

verus! {

/// The supplement id this module implements.
pub open spec fn live_reliability_id() -> Seq<char> {
    "etdl.live-reliability"@
}

/// What the `live_reliability` extension's descriptor holds.
pub open spec fn live_reliability_descriptor(d: SupplementDescriptor) -> bool {
    &&& d.summary@ == "Live, decentralized, per-node fault-tree probability recomputation at runtime — an explicitly opt-in, authoritative exception to the rule that runtime observations never change compiled probabilities."@
    &&& d.schema.is_some() && d.schema.unwrap()@ == "etdl.live-reliability/1.0"@
    &&& string_views(d.diagnostic_codes@) == seq!["E-170"@, "E-171"@, "E-172"@, "E-173"@, "W-414"@]
    &&& string_views(d.required_supplements@) == Seq::<Seq<char>>::empty()
}

/// The built-in extension for `etdl.live-reliability`.
#[derive(Debug, Default)]
pub struct LiveReliabilityExtension;

impl LiveReliabilityExtension {
    pub fn new() -> Self {
        LiveReliabilityExtension
    }

    pub fn id(&self) -> (s: &'static str)
        ensures
            s@ == live_reliability_id(),
    {
        "etdl.live-reliability"
    }

    pub fn version(&self) -> (s: &'static str)
        ensures
            s@ == "1.0"@,
    {
        "1.0"
    }

    /// Self-reported description of this supplement.
    pub fn descriptor(&self) -> (d: SupplementDescriptor)
        ensures
            live_reliability_descriptor(d),
    {
        let codes: [&str; 5] = ["E-170", "E-171", "E-172", "E-173", "W-414"];
        let required: [&str; 0] = [];
        let d = make_descriptor(
            "Live, decentralized, per-node fault-tree probability recomputation at runtime — an explicitly opt-in, authoritative exception to the rule that runtime observations never change compiled probabilities.",
            Some("etdl.live-reliability/1.0"),
            &codes,
            &required,
        );
        assert(codes@.map_values(|x: &str| x@) =~= seq!["E-170"@, "E-171"@, "E-172"@, "E-173"@, "W-414"@]);
        assert(required@.map_values(|x: &str| x@) =~= Seq::<Seq<char>>::empty());
        d
    }

    /// This extension's registry entry.
    pub fn info(&self) -> (e: ExtensionInfo)
        ensures
            e.id@ == live_reliability_id(),
            e.version@ == "1.0"@,
            live_reliability_descriptor(e.descriptor),
    {
        ExtensionInfo {
            id: crate::text::owned(self.id()),
            version: crate::text::owned(self.version()),
            descriptor: self.descriptor(),
        }
    }
}

} // verus!

verus! {

/// A basic event a service tracks live.
#[derive(Debug, Clone)]
pub struct LiveBasicEventDecl {
    pub id: String,
    /// `local` (observed here) or `inbound` (arrives with received messages).
    pub source: String,
    pub prior_strength: Measure,
}

/// A fault tree a service tracks live.
#[derive(Debug, Clone)]
pub struct LiveFaultTreeDecl {
    pub id: String,
    pub basic_events: Vec<LiveBasicEventDecl>,
    pub threshold: Measure,
}

/// Every fault tree declaration that passed its checks, each with the
/// basic events that passed theirs.
#[derive(Debug, Clone)]
pub struct LiveReliabilityData {
    pub fault_trees: Vec<LiveFaultTreeDecl>,
}

/// The `x-live-reliability` field: its `faultTrees` list, deserialized,
/// or the text of the error deserializing it gave; `None` when absent.
#[derive(Debug, Clone)]
pub struct LiveReliabilityManifest {
    pub fault_trees: Option<Result<Vec<LiveFaultTreeDecl>, String>>,
}

/// The value of an accepted fault tree declaration.
pub struct LiveTreeView {
    pub id: Seq<char>,
    pub basic_events: Seq<LiveBasicEventDecl>,
    pub threshold: Measure,
}

pub open spec fn live_view(t: LiveFaultTreeDecl) -> LiveTreeView {
    LiveTreeView { id: t.id@, basic_events: t.basic_events@, threshold: t.threshold }
}

pub open spec fn decl_ids(ds: Seq<LiveFaultTreeDecl>) -> Seq<Seq<char>> {
    ds.map_values(|d: LiveFaultTreeDecl| d.id@)
}

pub open spec fn event_ids(es: Seq<LiveBasicEventDecl>) -> Seq<Seq<char>> {
    es.map_values(|e: LiveBasicEventDecl| e.id@)
}

/// The fault tree named `id` (the first, if several share it).
pub open spec fn fault_tree_named(doc: Document, id: Seq<char>) -> Option<FaultTree> {
    let fts = match doc.fault_trees {
        Some(f) => f@,
        None => Seq::empty(),
    };
    let i = index_of(fault_tree_names(doc), id);
    if 0 <= i < fts.len() {
        Some(fts[i].tree)
    } else {
        None
    }
}

/// The diagnostics of basic event `j` of declaration `d`, whose fault tree
/// is `ft`.
pub open spec fn live_event_diags(d: LiveFaultTreeDecl, ft: FaultTree, j: int) -> Seq<DiagnosticView> {
    let es = d.basic_events@;
    let e = es[j];
    let pre = "x-live-reliability: faultTrees entry '"@ + d.id@;
    (if event_ids(es).take(j).contains(e.id@) {
        err("E-172"@, pre + "': duplicate basicEvents entry for '"@ + e.id@ + "'"@)
    } else {
        Seq::empty()
    }) + (if !be_ids(ft).contains(e.id@) {
        err(
            "E-171"@,
            pre + "': basicEvents entry '"@ + e.id@
                + "' is not a basic event of that fault tree"@,
        )
    } else {
        Seq::empty()
    }) + if e.source@ == "local"@ {
        if !e.prior_strength.finite || !e.prior_strength.positive {
            err(
                "E-170"@,
                pre + "': basic event '"@ + e.id@
                    + "': priorStrength must be a positive finite number (got "@
                    + e.prior_strength.text@ + ")"@,
            )
        } else if e.prior_strength.below_one {
            seq![
                warning_view(
                    "W-414"@,
                    pre + "': basic event '"@ + e.id@ + "': priorStrength "@
                        + e.prior_strength.text@
                        + " is below 1.0 \u{2014} a single observation will dominate the declared probability almost immediately"@,
                ),
            ]
        } else {
            Seq::empty()
        }
    } else if e.source@ == "inbound"@ {
        Seq::empty()
    } else {
        err(
            "E-170"@,
            pre + "': basic event '"@ + e.id@ + "': source '"@ + e.source@
                + "' is not one of local, inbound"@,
        )
    }
}

pub open spec fn live_event_ok(d: LiveFaultTreeDecl, ft: FaultTree, j: int) -> bool {
    let es = d.basic_events@;
    let e = es[j];
    &&& !event_ids(es).take(j).contains(e.id@)
    &&& be_ids(ft).contains(e.id@)
    &&& (e.source@ == "local"@ && e.prior_strength.finite && e.prior_strength.positive)
        || e.source@ == "inbound"@
}

pub open spec fn live_events_diags(d: LiveFaultTreeDecl, ft: FaultTree, n: int) -> Seq<
    DiagnosticView,
>
    decreases n,
{
    if n <= 0 {
        Seq::empty()
    } else {
        live_events_diags(d, ft, n - 1) + live_event_diags(d, ft, n - 1)
    }
}

pub open spec fn valid_live_events(d: LiveFaultTreeDecl, ft: FaultTree, n: int) -> Seq<
    LiveBasicEventDecl,
>
    decreases n,
{
    if n <= 0 {
        Seq::empty()
    } else {
        valid_live_events(d, ft, n - 1) + if live_event_ok(d, ft, n - 1) {
            seq![d.basic_events@[n - 1]]
        } else {
            Seq::empty()
        }
    }
}

/// The diagnostics of declaration `i`.
pub open spec fn decl_diags(doc: Document, ds: Seq<LiveFaultTreeDecl>, i: int) -> Seq<DiagnosticView> {
    let d = ds[i];
    (if decl_ids(ds).take(i).contains(d.id@) {
        err("E-172"@, "x-live-reliability: duplicate faultTrees entry for '"@ + d.id@ + "'"@)
    } else {
        Seq::empty()
    }) + match fault_tree_named(doc, d.id@) {
        None => err(
            "E-171"@,
            "x-live-reliability: faultTrees entry '"@ + d.id@
                + "' does not resolve to a declared fault tree"@,
        ),
        Some(ft) => (if !d.threshold.finite || d.threshold.negative {
            err(
                "E-170"@,
                "x-live-reliability: faultTrees entry '"@ + d.id@
                    + "': threshold must be a non-negative finite number (got "@ + d.threshold.text@
                    + ")"@,
            )
        } else {
            Seq::empty()
        }) + live_events_diags(d, ft, d.basic_events@.len() as int),
    }
}

pub open spec fn decl_ok(doc: Document, ds: Seq<LiveFaultTreeDecl>, i: int) -> bool {
    let d = ds[i];
    &&& !decl_ids(ds).take(i).contains(d.id@)
    &&& fault_tree_named(doc, d.id@) is Some
    &&& d.threshold.finite && !d.threshold.negative
}

pub open spec fn decls_diags(doc: Document, ds: Seq<LiveFaultTreeDecl>, n: int) -> Seq<DiagnosticView>
    decreases n,
{
    if n <= 0 {
        Seq::empty()
    } else {
        decls_diags(doc, ds, n - 1) + decl_diags(doc, ds, n - 1)
    }
}

/// The accepted declarations among the first `n`, each with its accepted
/// basic events.
pub open spec fn accepted_decls(doc: Document, ds: Seq<LiveFaultTreeDecl>, n: int) -> Seq<
    LiveTreeView,
>
    decreases n,
{
    if n <= 0 {
        Seq::empty()
    } else {
        let d = ds[n - 1];
        accepted_decls(doc, ds, n - 1) + if decl_ok(doc, ds, n - 1) {
            seq![
                LiveTreeView {
                    id: d.id@,
                    basic_events: valid_live_events(
                        d,
                        fault_tree_named(doc, d.id@)->0,
                        d.basic_events@.len() as int,
                    ),
                    threshold: d.threshold,
                },
            ]
        } else {
            Seq::empty()
        }
    }
}

/// The accepted declarations and the diagnostics of the live-reliability
/// validation.
pub open spec fn live_outcome(doc: Document, manifest: Option<LiveReliabilityManifest>) -> (
    Seq<LiveTreeView>,
    Seq<DiagnosticView>,
) {
    if !declares(doc, "etdl.live-reliability"@) || manifest is None {
        (Seq::empty(), Seq::empty())
    } else {
        match manifest->0.fault_trees {
            None => (Seq::empty(), Seq::empty()),
            Some(Err(e)) => (
                Seq::empty(),
                err("E-170"@, "x-live-reliability: invalid faultTrees manifest: "@ + e@),
            ),
            Some(Ok(v)) => (
                accepted_decls(doc, v@, v@.len() as int),
                decls_diags(doc, v@, v@.len() as int),
            ),
        }
    }
}

} // verus!

verus! {

fn push_error(out: &mut Vec<Diagnostic>, code: &str, msg: String)
    ensures
        views(final(out)@) == views(old(out)@) + err(code@, msg@),
{
    push_diag(out, Diagnostic::error(code, msg));
    assert(views(out@) =~= views(old(out)@) + err(code@, msg@));
}

fn find_fault_tree<'a>(doc: &'a Document, id: &str) -> (r: Option<&'a FaultTree>)
    ensures
        match fault_tree_named(*doc, id@) {
            Some(ft) => r is Some && *r->0 == ft,
            None => r is None,
        },
{
    let ghost ids = fault_tree_names(*doc);
    let fts = match &doc.fault_trees {
        Some(f) => f,
        None => {
            proof {
                crate::model::lemma_index_of(ids, id@);
            }
            return None;
        },
    };
    let mut i: usize = 0;
    while i < fts.len()
        invariant
            i <= fts@.len(),
            ids == fault_tree_names(*doc),
            ids == fts@.map_values(|e: FaultTreeEntry| e.name@),
            doc.fault_trees == Some(*fts),
            forall|j: int| 0 <= j < i ==> ids[j] != id@,
        decreases fts.len() - i,
    {
        if same(fts[i].name.as_str(), id) {
            proof {
                crate::model::lemma_index_of_is(ids, id@, i as int);
            }
            return Some(&fts[i].tree);
        }
        i = i + 1;
    }
    proof {
        crate::model::lemma_index_of_is(ids, id@, i as int);
    }
    None
}

fn be_known(ft: &FaultTree, id: &str) -> (b: bool)
    ensures
        b == be_ids(*ft).contains(id@),
{
    let mut k: usize = 0;
    while k < ft.basic_events.len()
        invariant
            k <= ft.basic_events@.len(),
            forall|j: int| 0 <= j < k ==> be_ids(*ft)[j] != id@,
        decreases ft.basic_events.len() - k,
    {
        if same(ft.basic_events[k].id.as_str(), id) {
            assert(be_ids(*ft)[k as int] == id@);
            return true;
        }
        k = k + 1;
    }
    false
}

fn check_live_event(d: &LiveFaultTreeDecl, ft: &FaultTree, j: usize, out: &mut Vec<Diagnostic>) -> (ok: bool)
    requires
        j < d.basic_events@.len(),
    ensures
        views(final(out)@) == views(old(out)@) + live_event_diags(*d, *ft, j as int),
        ok == live_event_ok(*d, *ft, j as int),
{
    proof {
        reveal_strlit("local");
        reveal_strlit("inbound");
    }
    let es = &d.basic_events;
    let e = &es[j];
    let ghost d0 = views(out@);
    let mut dup = false;
    let mut k: usize = 0;
    while k < j
        invariant
            k <= j < es@.len(),
            !dup ==> forall|y: int| 0 <= y < k ==> es@[y].id@ != e.id@,
            dup ==> event_ids(es@).take(j as int).contains(e.id@),
        decreases j - k,
    {
        if same(es[k].id.as_str(), e.id.as_str()) {
            assert(event_ids(es@).take(j as int)[k as int] == e.id@);
            dup = true;
        }
        k = k + 1;
    }
    assert(dup == event_ids(es@).take(j as int).contains(e.id@));
    if dup {
        push_error(out, "E-172", cat5("x-live-reliability: faultTrees entry '", d.id.as_str(),
            "': duplicate basicEvents entry for '", e.id.as_str(), "'"));
    }
    let known = be_known(ft, e.id.as_str());
    if !known {
        push_error(out, "E-171", cat5("x-live-reliability: faultTrees entry '", d.id.as_str(),
            "': basicEvents entry '", e.id.as_str(), "' is not a basic event of that fault tree"));
    }
    let mut src_ok = true;
    if same(e.source.as_str(), "local") {
        if !e.prior_strength.finite || !e.prior_strength.positive {
            push_error(out, "E-170", cat5("x-live-reliability: faultTrees entry '", d.id.as_str(),
                "': basic event '", e.id.as_str(),
                "': priorStrength must be a positive finite number (got ").concat(
                e.prior_strength.text.as_str(),
            ).concat(")"));
            src_ok = false;
            assert(!((e.source@ == "local"@ && e.prior_strength.finite && e.prior_strength.positive)
                || e.source@ == "inbound"@)) by {
                assert(e.source@ == "local"@);
                assert("local"@ != "inbound"@) by {
                    assert("local"@[0] != "inbound"@[0]);
                }
            }
        } else if e.prior_strength.below_one {
            push_diag(out, Diagnostic::warning("W-414", cat5("x-live-reliability: faultTrees entry '",
                d.id.as_str(), "': basic event '", e.id.as_str(), "': priorStrength ").concat(
                e.prior_strength.text.as_str(),
            ).concat(
                " is below 1.0 \u{2014} a single observation will dominate the declared probability almost immediately",
            )));
        }
    } else if !same(e.source.as_str(), "inbound") {
        push_error(out, "E-170", cat5("x-live-reliability: faultTrees entry '", d.id.as_str(),
            "': basic event '", e.id.as_str(), "': source '").concat(e.source.as_str()).concat(
            "' is not one of local, inbound",
        ));
        src_ok = false;
    }
    assert(views(out@) =~= d0 + live_event_diags(*d, *ft, j as int));
    assert(src_ok == ((e.source@ == "local"@ && e.prior_strength.finite && e.prior_strength.positive)
        || e.source@ == "inbound"@));
    assert(*e == d.basic_events@[j as int]);
    !dup && known && src_ok
}

fn check_decl(
    doc: &Document,
    ds: &Vec<LiveFaultTreeDecl>,
    i: usize,
    out: &mut Vec<Diagnostic>,
    flags: &mut Vec<bool>,
) -> (ok: bool)
    requires
        i < ds@.len(),
    ensures
        views(final(out)@) == views(old(out)@) + decl_diags(*doc, ds@, i as int),
        ok == decl_ok(*doc, ds@, i as int),
        ok ==> final(flags)@.len() == ds@[i as int].basic_events@.len() && forall|j: int|
            0 <= j < final(flags)@.len() ==> final(flags)@[j] == live_event_ok(
                ds@[i as int],
                fault_tree_named(*doc, ds@[i as int].id@)->0,
                j,
            ),
{
    let d = &ds[i];
    let ghost d0 = views(out@);
    let mut dup = false;
    let mut k: usize = 0;
    while k < i
        invariant
            k <= i < ds@.len(),
            !dup ==> forall|y: int| 0 <= y < k ==> ds@[y].id@ != d.id@,
            dup ==> decl_ids(ds@).take(i as int).contains(d.id@),
        decreases i - k,
    {
        if same(ds[k].id.as_str(), d.id.as_str()) {
            assert(decl_ids(ds@).take(i as int)[k as int] == d.id@);
            dup = true;
        }
        k = k + 1;
    }
    assert(dup == decl_ids(ds@).take(i as int).contains(d.id@));
    if dup {
        push_error(out, "E-172", cat3("x-live-reliability: duplicate faultTrees entry for '",
            d.id.as_str(), "'"));
    }
    let ghost d1 = views(out@);
    let ft = match find_fault_tree(doc, d.id.as_str()) {
        Some(ft) => ft,
        None => {
            push_error(out, "E-171", cat3("x-live-reliability: faultTrees entry '", d.id.as_str(),
                "' does not resolve to a declared fault tree"));
            assert(views(out@) =~= d0 + decl_diags(*doc, ds@, i as int));
            return false;
        },
    };
    let th_ok = d.threshold.finite && !d.threshold.negative;
    if !th_ok {
        push_error(out, "E-170", cat3("x-live-reliability: faultTrees entry '", d.id.as_str(),
            "': threshold must be a non-negative finite number (got ").concat(
            d.threshold.text.as_str(),
        ).concat(")"));
    }
    let ghost d2 = views(out@);
    let mut fl: Vec<bool> = Vec::new();
    let mut j: usize = 0;
    while j < d.basic_events.len()
        invariant
            j <= d.basic_events@.len(),
            fl@.len() == j,
            forall|x: int| 0 <= x < j ==> fl@[x] == live_event_ok(*d, *ft, x),
            views(out@) == d2 + live_events_diags(*d, *ft, j as int),
        decreases d.basic_events.len() - j,
    {
        let b = check_live_event(d, ft, j, out);
        fl.push(b);
        j = j + 1;
    }
    *flags = fl;
    assert(views(out@) =~= d0 + decl_diags(*doc, ds@, i as int));
    !dup && th_ok
}

/// Validate the fault tree declarations of `x-live-reliability` (given as
/// deserialized by the caller), when the document declares
/// `etdl.live-reliability`: E-172 repeated declarations or basic events;
/// E-171 names of no declared fault tree or basic event; E-170 a negative
/// or non-finite threshold, a non-positive or non-finite prior strength, a
/// source other than `local` or `inbound`, or an undeserializable list;
/// W-414 a prior strength below one. Returns the accepted declarations,
/// each with its accepted basic events.
pub fn parse_and_validate_live_reliability(
    doc: &Document,
    manifest: Option<LiveReliabilityManifest>,
) -> (r: (LiveReliabilityData, Vec<Diagnostic>))
    ensures
        r.0.fault_trees@.map_values(|t: LiveFaultTreeDecl| live_view(t)) == live_outcome(
            *doc,
            manifest,
        ).0,
        views(r.1@) == live_outcome(*doc, manifest).1,
{
    let mut diagnostics: Vec<Diagnostic> = Vec::new();
    let mut data = LiveReliabilityData { fault_trees: Vec::new() };
    assert(views(diagnostics@) =~= Seq::<DiagnosticView>::empty());
    assert(data.fault_trees@.map_values(|t: LiveFaultTreeDecl| live_view(t)) =~= Seq::<
        LiveTreeView,
    >::empty());
    if !declares_supplement(doc, "etdl.live-reliability") {
        return (data, diagnostics);
    }
    let m = match manifest {
        Some(m) => m,
        None => {
            return (data, diagnostics);
        },
    };
    let v = match m.fault_trees {
        None => {
            return (data, diagnostics);
        },
        Some(Err(e)) => {
            push_error(&mut diagnostics, "E-170", cat("x-live-reliability: invalid faultTrees manifest: ",
                e.as_str()));
            return (data, diagnostics);
        },
        Some(Ok(v)) => v,
    };
    let ghost all = v@;
    let mut ok: Vec<bool> = Vec::new();
    let mut event_flags: Vec<Vec<bool>> = Vec::new();
    let mut i: usize = 0;
    while i < v.len()
        invariant
            i <= v@.len(),
            all == v@,
            ok@.len() == i,
            event_flags@.len() == i,
            forall|j: int| 0 <= j < i ==> ok@[j] == decl_ok(*doc, all, j),
            forall|j: int|
                0 <= j < i && ok@[j] ==> (#[trigger] event_flags@[j])@.len()
                    == all[j].basic_events@.len() && forall|x: int|
                    0 <= x < event_flags@[j]@.len() ==> event_flags@[j]@[x] == live_event_ok(
                        all[j],
                        fault_tree_named(*doc, all[j].id@)->0,
                        x,
                    ),
            views(diagnostics@) == decls_diags(*doc, all, i as int),
        decreases v.len() - i,
    {
        let mut flags: Vec<bool> = Vec::new();
        let b = check_decl(doc, &v, i, &mut diagnostics, &mut flags);
        ok.push(b);
        event_flags.push(flags);
        i = i + 1;
    }
    let mut rest = v;
    let mut k: usize = 0;
    while k < ok.len()
        invariant
            ok@.len() == all.len(),
            event_flags@.len() == all.len(),
            k <= all.len(),
            forall|j: int| 0 <= j < all.len() ==> ok@[j] == decl_ok(*doc, all, j),
            forall|j: int|
                0 <= j < all.len() && ok@[j] ==> (#[trigger] event_flags@[j])@.len()
                    == all[j].basic_events@.len() && forall|x: int|
                    0 <= x < event_flags@[j]@.len() ==> event_flags@[j]@[x] == live_event_ok(
                        all[j],
                        fault_tree_named(*doc, all[j].id@)->0,
                        x,
                    ),
            rest@ == all.skip(k as int),
            data.fault_trees@.map_values(|t: LiveFaultTreeDecl| live_view(t)) == accepted_decls(
                *doc,
                all,
                k as int,
            ),
        decreases ok.len() - k,
    {
        assert(rest@.len() > 0 && rest@[0] == all[k as int]);
        let d = rest.remove(0);
        let ghost before = data.fault_trees@;
        if ok[k] {
            let LiveFaultTreeDecl { id, basic_events, threshold } = d;
            let ghost dg = all[k as int];
            let ghost ft = fault_tree_named(*doc, dg.id@)->0;
            let flags = &event_flags[k];
            let mut evs = basic_events;
            let mut kept: Vec<LiveBasicEventDecl> = Vec::new();
            let mut x: usize = 0;
            while x < flags.len()
                invariant
                    flags@.len() == dg.basic_events@.len(),
                    forall|y: int| 0 <= y < flags@.len() ==> flags@[y] == live_event_ok(dg, ft, y),
                    x <= flags@.len(),
                    evs@ == dg.basic_events@.skip(x as int),
                    kept@ == valid_live_events(dg, ft, x as int),
                decreases flags.len() - x,
            {
                assert(evs@.len() > 0 && evs@[0] == dg.basic_events@[x as int]);
                let e = evs.remove(0);
                if flags[x] {
                    kept.push(e);
                }
                assert(evs@ =~= dg.basic_events@.skip(x + 1));
                assert(kept@ =~= valid_live_events(dg, ft, x + 1));
                x = x + 1;
            }
            data.fault_trees.push(LiveFaultTreeDecl { id, basic_events: kept, threshold });
        }
        assert(data.fault_trees@.map_values(|t: LiveFaultTreeDecl| live_view(t)) =~= accepted_decls(
            *doc,
            all,
            k + 1,
        ));
        assert(rest@ =~= all.skip(k + 1));
        k = k + 1;
    }
    (data, diagnostics)
}

} // verus!

verus! {

/// What the live-reliability extension's processing step yields: nothing
/// that feeds back into compile-time probabilities.
#[derive(Debug)]
pub struct LiveReliabilityResult;

impl LiveReliabilityResult {
    pub fn extension_id(&self) -> (s: &'static str)
        ensures
            s@ == live_reliability_id(),
    {
        "etdl.live-reliability"
    }
}

} // verus!
