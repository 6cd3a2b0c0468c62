//! Compiler integration for the Reliability Supplement (`etdl.reliability`).

use vstd::prelude::*;
use crate::extension::{ExtensionInfo, SupplementDescriptor, make_descriptor, string_views};
use crate::text::{owned, same, cat, cat3, cat7, cat9, split_on};
use crate::diagnostic::{
    error_view, warning_view, views, push_diag, extend_diags, any_error, has_error,
    lemma_flat_map_step, lemma_flat_map_empty, lemma_take_all, Diagnostic, DiagnosticView,
};
use crate::model::{BasicEvent, BasicEventEntry, Document, FaultTree, FaultTreeEntry};
use crate::validate::{declares, declares_supplement};

verus! {

/// The supplement id this module implements.
pub open spec fn reliability_id() -> Seq<char> {
    "etdl.reliability"@
}

/// What the `reliability` extension's descriptor holds.
pub open spec fn reliability_descriptor(d: SupplementDescriptor) -> bool {
    &&& d.summary@ == "External reliability sources (artifacts of probability estimates) resolved to deterministic basic-event probabilities before fault-tree evaluation."@
    &&& d.schema.is_none()
    &&& string_views(d.diagnostic_codes@) == seq!["E-110"@, "E-111"@, "E-112"@, "W-408"@]
    &&& string_views(d.required_supplements@) == Seq::<Seq<char>>::empty()
}

/// The built-in extension for `etdl.reliability`.
#[derive(Debug, Default)]
pub struct ReliabilityExtension;

impl ReliabilityExtension {
    pub fn new() -> Self {
        ReliabilityExtension
    }

    pub fn id(&self) -> (s: &'static str)
        ensures
            s@ == reliability_id(),
    {
        "etdl.reliability"
    }

    pub fn version(&self) -> (s: &'static str)
        ensures
            s@ == "1.0"@,
    {
        "1.0"
    }

    /// Self-reported description of this supplement.
    pub fn descriptor(&self) -> (d: SupplementDescriptor)
        ensures
            reliability_descriptor(d),
    {
        let codes: [&str; 4] = ["E-110", "E-111", "E-112", "W-408"];
        let required: [&str; 0] = [];
        let d = make_descriptor(
            "External reliability sources (artifacts of probability estimates) resolved to deterministic basic-event probabilities before fault-tree evaluation.",
            None,
            &codes,
            &required,
        );
        assert(codes@.map_values(|x: &str| x@) =~= seq!["E-110"@, "E-111"@, "E-112"@, "W-408"@]);
        assert(required@.map_values(|x: &str| x@) =~= Seq::<Seq<char>>::empty());
        d
    }

    /// This extension's registry entry.
    pub fn info(&self) -> (e: ExtensionInfo)
        ensures
            e.id@ == reliability_id(),
            e.version@ == "1.0"@,
            reliability_descriptor(e.descriptor),
    {
        ExtensionInfo {
            id: crate::text::owned(self.id()),
            version: crate::text::owned(self.version()),
            descriptor: self.descriptor(),
        }
    }
}

} // verus!

verus! {

/// The compiler features this build enables.
pub fn enabled_features() -> (v: Vec<&'static str>)
    ensures
        v@.map_values(|x: &str| x@) == seq!["reliability"@],
{
    let v = vec!["reliability"];
    assert(v@.map_values(|x: &str| x@) =~= seq!["reliability"@]);
    v
}

/// How an estimate without a deterministic value is treated.
#[derive(Debug, Clone, Copy, PartialEq, Eq, Structural)]
pub enum UnknownProbabilityPolicy {
    /// Unknown estimates fail the build (E-112).
    Error,
    /// Unknown estimates are reported (W-408) and the declared probability is kept.
    Warning,
    /// Unknown estimates silently keep the declared probability.
    Allow,
}

/// The policy that applies when `unknownPolicy` is absent.
pub open spec fn default_policy() -> UnknownProbabilityPolicy {
    UnknownProbabilityPolicy::Warning
}

/// One declared reliability source: an artifact file, named by `id`.
#[derive(Debug, Clone)]
pub struct SourceConfig {
    pub id: String,
    pub file: String,
}

/// The configuration read from the document's `x-reliability` field.
#[derive(Debug)]
pub struct ReliabilityConfig {
    pub sources: Vec<SourceConfig>,
    pub unknown_policy: UnknownProbabilityPolicy,
}

/// One entry of `x-reliability.sources` as written: `id` and `file` are
/// `None` where the key is absent or its value is not a string.
#[derive(Debug, Clone)]
pub struct RawSource {
    pub id: Option<String>,
    pub file: Option<String>,
}

/// The `x-reliability` field as written. An absent field, or one that is not
/// a mapping, reads as no sources and no policy; `sources` entries that are
/// not mappings are left out.
#[derive(Debug, Clone)]
pub struct RawReliabilityConfig {
    pub sources: Vec<RawSource>,
    /// `None` where `unknownPolicy` is absent; `Some(None)` where its value
    /// is not a string.
    pub unknown_policy: Option<Option<String>>,
}

/// Whether a written source is kept: both `id` and `file` are non-empty strings.
pub open spec fn source_kept(s: RawSource) -> bool {
    &&& s.id is Some
    &&& s.id.unwrap()@.len() > 0
    &&& s.file is Some
    &&& s.file.unwrap()@.len() > 0
}

/// The `(id, file)` pairs of the kept sources, in order.
pub open spec fn kept_sources(raw: Seq<RawSource>) -> Seq<(Seq<char>, Seq<char>)>
    decreases raw.len(),
{
    if raw.len() == 0 {
        Seq::empty()
    } else {
        let rest = kept_sources(raw.drop_last());
        let s = raw.last();
        if source_kept(s) {
            rest.push((s.id.unwrap()@, s.file.unwrap()@))
        } else {
            rest
        }
    }
}

/// The `(id, file)` pairs of configured sources.
pub open spec fn source_views(s: Seq<SourceConfig>) -> Seq<(Seq<char>, Seq<char>)> {
    s.map_values(|c: SourceConfig| (c.id@, c.file@))
}

/// The policy that a written `unknownPolicy` selects: `"error"` and
/// `"allow"` select themselves, anything else that is present selects
/// `Warning`.
pub open spec fn policy_of(p: Option<Option<String>>) -> UnknownProbabilityPolicy {
    match p {
        None => default_policy(),
        Some(None) => UnknownProbabilityPolicy::Warning,
        Some(Some(s)) => if s@ == "error"@ {
            UnknownProbabilityPolicy::Error
        } else if s@ == "allow"@ {
            UnknownProbabilityPolicy::Allow
        } else {
            UnknownProbabilityPolicy::Warning
        },
    }
}

fn read_policy(p: &Option<Option<String>>) -> (r: UnknownProbabilityPolicy)
    ensures
        r == policy_of(*p),
{
    match p {
        None => UnknownProbabilityPolicy::Warning,
        Some(None) => UnknownProbabilityPolicy::Warning,
        Some(Some(s)) => {
            if same(s.as_str(), "error") {
                UnknownProbabilityPolicy::Error
            } else if same(s.as_str(), "allow") {
                UnknownProbabilityPolicy::Allow
            } else {
                UnknownProbabilityPolicy::Warning
            }
        },
    }
}

/// Read the reliability configuration: keep the sources with a non-empty
/// `id` and `file`, in order, and select the unknown-estimate policy.
pub fn parse_config(raw: &RawReliabilityConfig) -> (c: ReliabilityConfig)
    ensures
        source_views(c.sources@) == kept_sources(raw.sources@),
        c.unknown_policy == policy_of(raw.unknown_policy),
{
    let mut sources: Vec<SourceConfig> = Vec::new();
    let mut i: usize = 0;
    while i < raw.sources.len()
        invariant
            i <= raw.sources@.len(),
            source_views(sources@) == kept_sources(raw.sources@.take(i as int)),
        decreases raw.sources.len() - i,
    {
        let s = &raw.sources[i];
        assert(raw.sources@.take(i as int + 1).drop_last() =~= raw.sources@.take(i as int));
        match (&s.id, &s.file) {
            (Some(id), Some(file)) => {
                if id.as_str().unicode_len() > 0 && file.as_str().unicode_len() > 0 {
                    sources.push(SourceConfig { id: owned(id.as_str()), file: owned(file.as_str()) });
                    assert(source_views(sources@) =~= kept_sources(raw.sources@.take(i as int + 1)));
                }
            },
            _ => {},
        }
        i = i + 1;
    }
    assert(raw.sources@.take(raw.sources@.len() as int) =~= raw.sources@);
    ReliabilityConfig { sources, unknown_policy: read_policy(&raw.unknown_policy) }
}

} // verus!

verus! {

/// A basic-event probability resolved from an artifact estimate.
#[derive(Debug, Clone)]
pub struct ResolvedProbability {
    /// The probability's display text (it round-trips to the number).
    pub value: String,
    pub estimate_id: String,
    pub artifact_id: String,
    pub artifact_version: Option<String>,
}

pub struct ResolvedProbabilityView {
    pub value: Seq<char>,
    pub estimate_id: Seq<char>,
    pub artifact_id: Seq<char>,
    pub artifact_version: Option<Seq<char>>,
}

pub open spec fn opt_view(o: Option<String>) -> Option<Seq<char>> {
    match o {
        Some(s) => Some(s@),
        None => None,
    }
}

impl View for ResolvedProbability {
    type V = ResolvedProbabilityView;

    open spec fn view(&self) -> ResolvedProbabilityView {
        ResolvedProbabilityView {
            value: self.value@,
            estimate_id: self.estimate_id@,
            artifact_id: self.artifact_id@,
            artifact_version: opt_view(self.artifact_version),
        }
    }
}

fn copy_opt(o: &Option<String>) -> (c: Option<String>)
    ensures
        opt_view(c) == opt_view(*o),
{
    match o {
        Some(s) => Some(owned(s.as_str())),
        None => None,
    }
}

fn copy_probability(r: &ResolvedProbability) -> (c: ResolvedProbability)
    ensures
        c@ == r@,
{
    ResolvedProbability {
        value: owned(r.value.as_str()),
        estimate_id: owned(r.estimate_id.as_str()),
        artifact_id: owned(r.artifact_id.as_str()),
        artifact_version: copy_opt(&r.artifact_version),
    }
}

/// What resolving one estimate of an artifact gave.
#[derive(Debug, Clone)]
pub enum EstimateOutcome {
    /// A deterministic probability.
    Resolved(ResolvedProbability),
    /// The estimate exists but has no deterministic value.
    Unknown,
    /// The estimate could not be resolved; the reason.
    Failed(String),
}

/// The outcome of resolving the estimate named `estimate`.
#[derive(Debug, Clone)]
pub struct EstimateResolution {
    pub estimate: String,
    pub outcome: EstimateOutcome,
}

/// A loaded reliability artifact, as the outcomes of resolving its
/// estimates. An estimate id that no entry names does not exist in it.
#[derive(Debug, Clone)]
pub struct LoadedArtifact {
    pub id: String,
    pub version: Option<String>,
    pub resolutions: Vec<EstimateResolution>,
}

/// A configured source and what loading its file gave: the artifact, or
/// the reason it could not be had.
#[derive(Debug)]
pub struct SourceLoad {
    pub id: String,
    pub file: String,
    pub artifact: Result<LoadedArtifact, String>,
}

/// A basic event whose probability was resolved from an artifact.
#[derive(Debug, Clone)]
pub struct ResolvedBasicEvent {
    pub fault_tree: String,
    pub basic_event: String,
    pub resolved: ResolvedProbability,
}

pub struct ResolvedBasicEventView {
    pub fault_tree: Seq<char>,
    pub basic_event: Seq<char>,
    pub resolved: ResolvedProbabilityView,
}

impl View for ResolvedBasicEvent {
    type V = ResolvedBasicEventView;

    open spec fn view(&self) -> ResolvedBasicEventView {
        ResolvedBasicEventView {
            fault_tree: self.fault_tree@,
            basic_event: self.basic_event@,
            resolved: self.resolved@,
        }
    }
}

impl ResolvedBasicEvent {
    /// The key `<fault tree>::<basic event>`, unambiguous across fault trees.
    pub fn override_key(&self) -> (k: String)
        ensures
            k@ == self.fault_tree@ + "::"@ + self.basic_event@,
    {
        crate::fault_tree::override_key(self.fault_tree.as_str(), self.basic_event.as_str())
    }
}

/// What the lookup of an estimate in an artifact gives.
pub enum Lookup {
    Resolved(ResolvedProbabilityView),
    Unknown,
    Missing,
    Failed(Seq<char>),
}

pub open spec fn resolution_ids(rs: Seq<EstimateResolution>) -> Seq<Seq<char>> {
    rs.map_values(|r: EstimateResolution| r.estimate@)
}

/// The outcome of the first entry naming `est`; `Missing` if none does.
pub open spec fn lookup(a: LoadedArtifact, est: Seq<char>) -> Lookup {
    let i = crate::model::index_of(resolution_ids(a.resolutions@), est);
    if i < a.resolutions@.len() {
        match a.resolutions@[i].outcome {
            EstimateOutcome::Resolved(r) => Lookup::Resolved(r@),
            EstimateOutcome::Unknown => Lookup::Unknown,
            EstimateOutcome::Failed(e) => Lookup::Failed(e@),
        }
    } else {
        Lookup::Missing
    }
}

/// The index of the last source among the first `n` named `src` whose
/// artifact loaded, or -1: later sources with the same id replace earlier ones.
pub open spec fn slot(loads: Seq<SourceLoad>, n: int, src: Seq<char>) -> int
    decreases n,
{
    if n <= 0 {
        -1
    } else if loads[n - 1].artifact is Ok && loads[n - 1].id@ == src {
        n - 1
    } else {
        slot(loads, n - 1, src)
    }
}

pub proof fn lemma_slot(loads: Seq<SourceLoad>, n: int, src: Seq<char>)
    requires
        0 <= n <= loads.len(),
    ensures
        -1 <= slot(loads, n, src) < n,
        slot(loads, n, src) >= 0 ==> loads[slot(loads, n, src)].artifact is Ok,
    decreases n,
{
    if n > 0 {
        lemma_slot(loads, n - 1, src);
    }
}

/// The artifact that basic events naming source `src` read.
pub open spec fn artifact_for(loads: Seq<SourceLoad>, src: Seq<char>) -> Option<LoadedArtifact> {
    let i = slot(loads, loads.len() as int, src);
    if i >= 0 {
        Some(loads[i].artifact->Ok_0)
    } else {
        None
    }
}

/// `basic event '<be>' (fault tree '<ft>'): reliability estimate '<est>' from source '<src>` and `tail`.
pub open spec fn estimate_msg(
    be: Seq<char>,
    ft: Seq<char>,
    est: Seq<char>,
    src: Seq<char>,
    tail: Seq<char>,
) -> Seq<char> {
    "basic event '"@ + be + "' (fault tree '"@ + ft + "'): reliability estimate '"@ + est
        + "' from source '"@ + src + tail
}

/// The diagnostics of resolving estimate `est` of source `src` for basic event `be`.
pub open spec fn lookup_diags(
    ft: Seq<char>,
    be: Seq<char>,
    src: Seq<char>,
    est: Seq<char>,
    l: Lookup,
    policy: UnknownProbabilityPolicy,
) -> Seq<DiagnosticView> {
    match l {
        Lookup::Resolved(_) => Seq::empty(),
        Lookup::Unknown => match policy {
            UnknownProbabilityPolicy::Error => seq![
                error_view(
                    "E-112"@,
                    estimate_msg(be, ft, est, src, "' has no deterministic value (unknown)"@),
                ),
            ],
            UnknownProbabilityPolicy::Warning => seq![
                warning_view(
                    "W-408"@,
                    estimate_msg(
                        be,
                        ft,
                        est,
                        src,
                        "' is unknown; falling back to the declared probability"@,
                    ),
                ),
            ],
            UnknownProbabilityPolicy::Allow => Seq::empty(),
        },
        Lookup::Missing => seq![
            error_view("E-112"@, estimate_msg(be, ft, est, src, "' does not exist in the artifact"@)),
        ],
        Lookup::Failed(e) => seq![
            error_view(
                "E-112"@,
                "basic event '"@ + be + "' (fault tree '"@ + ft
                    + "'): cannot resolve reliability estimate '"@ + est + "' from source '"@ + src
                    + "': "@ + e,
            ),
        ],
    }
}

/// The diagnostics of one basic event.
pub open spec fn event_diags(
    ft: Seq<char>,
    be_id: Seq<char>,
    be: BasicEvent,
    loads: Seq<SourceLoad>,
    policy: UnknownProbabilityPolicy,
) -> Seq<DiagnosticView> {
    match (be.reliability_source, be.reliability_estimate) {
        (Some(src), Some(est)) => match artifact_for(loads, src@) {
            None => seq![
                error_view(
                    "E-111"@,
                    "basic event '"@ + be_id + "' (fault tree '"@ + ft
                        + "') references reliability source '"@ + src@
                        + "' which is not declared in x-reliability.sources"@,
                ),
            ],
            Some(a) => lookup_diags(ft, be_id, src@, est@, lookup(a, est@), policy),
        },
        _ => Seq::empty(),
    }
}

/// The resolved probability of one basic event, if it has one.
pub open spec fn event_resolved(
    ft: Seq<char>,
    be_id: Seq<char>,
    be: BasicEvent,
    loads: Seq<SourceLoad>,
) -> Seq<ResolvedBasicEventView> {
    match (be.reliability_source, be.reliability_estimate) {
        (Some(src), Some(est)) => match artifact_for(loads, src@) {
            Some(a) => match lookup(a, est@) {
                Lookup::Resolved(r) => seq![
                    ResolvedBasicEventView { fault_tree: ft, basic_event: be_id, resolved: r },
                ],
                _ => Seq::empty(),
            },
            None => Seq::empty(),
        },
        _ => Seq::empty(),
    }
}

pub open spec fn tree_diags(
    t: FaultTreeEntry,
    loads: Seq<SourceLoad>,
    policy: UnknownProbabilityPolicy,
) -> Seq<DiagnosticView> {
    t.tree.basic_events@.flat_map(
        |e: BasicEventEntry| event_diags(t.name@, e.id@, e.event, loads, policy),
    )
}

pub open spec fn tree_resolved(t: FaultTreeEntry, loads: Seq<SourceLoad>) -> Seq<
    ResolvedBasicEventView,
> {
    t.tree.basic_events@.flat_map(|e: BasicEventEntry| event_resolved(t.name@, e.id@, e.event, loads))
}

pub open spec fn trees_of(doc: Document) -> Seq<FaultTreeEntry> {
    match doc.fault_trees {
        Some(ts) => ts@,
        None => Seq::empty(),
    }
}

/// The E-110 diagnostic of each source whose artifact could not be had.
pub open spec fn load_diags(loads: Seq<SourceLoad>) -> Seq<DiagnosticView> {
    loads.flat_map(
        |l: SourceLoad|
            match l.artifact {
                Ok(_) => Seq::<DiagnosticView>::empty(),
                Err(e) => seq![error_view("E-110"@, "reliability source '"@ + l.file@ + "': "@ + e@)],
            },
    )
}

/// The files of the sources whose artifact loaded, in order.
pub open spec fn loaded_files(loads: Seq<SourceLoad>) -> Seq<Seq<char>> {
    loads.flat_map(
        |l: SourceLoad|
            match l.artifact {
                Ok(_) => seq![l.file@],
                Err(_) => Seq::<Seq<char>>::empty(),
            },
    )
}

/// The diagnostics of resolving the whole document.
pub open spec fn resolution_diags(
    doc: Document,
    loads: Seq<SourceLoad>,
    policy: UnknownProbabilityPolicy,
) -> Seq<DiagnosticView> {
    load_diags(loads) + trees_of(doc).flat_map(|t: FaultTreeEntry| tree_diags(t, loads, policy))
}

/// The resolved basic events of the whole document, in document order.
pub open spec fn resolution_resolved(doc: Document, loads: Seq<SourceLoad>) -> Seq<
    ResolvedBasicEventView,
> {
    trees_of(doc).flat_map(|t: FaultTreeEntry| tree_resolved(t, loads))
}

pub open spec fn resolved_views(rs: Seq<ResolvedBasicEvent>) -> Seq<ResolvedBasicEventView> {
    rs.map_values(|r: ResolvedBasicEvent| r@)
}

} // verus!

verus! {

fn find_artifact(loads: &Vec<SourceLoad>, src: &str) -> (r: Option<usize>)
    ensures
        match r {
            Some(i) => i == slot(loads@, loads@.len() as int, src@) && i >= 0,
            None => slot(loads@, loads@.len() as int, src@) == -1,
        },
{
    let n = loads.len();
    let mut i: usize = n;
    while i > 0
        invariant
            i <= n == loads@.len(),
            slot(loads@, n as int, src@) == slot(loads@, i as int, src@),
        decreases i,
    {
        let l = &loads[i - 1];
        if l.artifact.is_ok() && same(l.id.as_str(), src) {
            return Some(i - 1);
        }
        i = i - 1;
    }
    None
}

fn find_estimate(rs: &Vec<EstimateResolution>, est: &str) -> (r: usize)
    ensures
        r == crate::model::index_of(resolution_ids(rs@), est@),
{
    let ghost ids = resolution_ids(rs@);
    let mut i: usize = 0;
    while i < rs.len()
        invariant
            i <= rs@.len(),
            ids == resolution_ids(rs@),
            forall|j: int| 0 <= j < i ==> ids[j] != est@,
        decreases rs.len() - i,
    {
        if same(rs[i].estimate.as_str(), est) {
            proof {
                crate::model::lemma_index_of_is(ids, est@, i as int);
            }
            return i;
        }
        i = i + 1;
    }
    proof {
        crate::model::lemma_index_of_is(ids, est@, i as int);
    }
    i
}

fn push_error(out: &mut Vec<Diagnostic>, code: &str, msg: String)
    ensures
        views(final(out)@) == views(old(out)@) + seq![error_view(code@, msg@)],
{
    push_diag(out, Diagnostic::error(code, msg));
    assert(views(out@) =~= views(old(out)@) + seq![error_view(code@, msg@)]);
}

fn push_warning(out: &mut Vec<Diagnostic>, code: &str, msg: String)
    ensures
        views(final(out)@) == views(old(out)@) + seq![warning_view(code@, msg@)],
{
    push_diag(out, Diagnostic::warning(code, msg));
    assert(views(out@) =~= views(old(out)@) + seq![warning_view(code@, msg@)]);
}

/// Resolve estimate `est` of artifact `a` for basic event `be_id`.
fn resolve_estimate(
    ft: &str,
    be_id: &str,
    src: &str,
    est: &str,
    a: &LoadedArtifact,
    policy: UnknownProbabilityPolicy,
    diagnostics: &mut Vec<Diagnostic>,
    resolved: &mut Vec<ResolvedBasicEvent>,
)
    ensures
        views(final(diagnostics)@) == views(old(diagnostics)@) + lookup_diags(
            ft@,
            be_id@,
            src@,
            est@,
            lookup(*a, est@),
            policy,
        ),
        resolved_views(final(resolved)@) == resolved_views(old(resolved)@) + match lookup(*a, est@) {
            Lookup::Resolved(r) => seq![
                ResolvedBasicEventView { fault_tree: ft@, basic_event: be_id@, resolved: r },
            ],
            _ => Seq::<ResolvedBasicEventView>::empty(),
        },
{
    let i = find_estimate(&a.resolutions, est);
    proof {
        crate::model::lemma_index_of(resolution_ids(a.resolutions@), est@);
    }
    if i < a.resolutions.len() {
        match &a.resolutions[i].outcome {
            EstimateOutcome::Resolved(r) => {
                resolved.push(
                    ResolvedBasicEvent {
                        fault_tree: owned(ft),
                        basic_event: owned(be_id),
                        resolved: copy_probability(r),
                    },
                );
                assert(resolved_views(resolved@) =~= resolved_views(old(resolved)@) + seq![
                    ResolvedBasicEventView { fault_tree: ft@, basic_event: be_id@, resolved: r@ },
                ]);
            },
            EstimateOutcome::Unknown => {
                match policy {
                    UnknownProbabilityPolicy::Error => {
                        push_error(
                            diagnostics,
                            "E-112",
                            cat9(
                                "basic event '",
                                be_id,
                                "' (fault tree '",
                                ft,
                                "'): reliability estimate '",
                                est,
                                "' from source '",
                                src,
                                "' has no deterministic value (unknown)",
                            ),
                        );
                    },
                    UnknownProbabilityPolicy::Warning => {
                        push_warning(
                            diagnostics,
                            "W-408",
                            cat9(
                                "basic event '",
                                be_id,
                                "' (fault tree '",
                                ft,
                                "'): reliability estimate '",
                                est,
                                "' from source '",
                                src,
                                "' is unknown; falling back to the declared probability",
                            ),
                        );
                    },
                    UnknownProbabilityPolicy::Allow => {
                        assert(views(diagnostics@) =~= views(old(diagnostics)@) + Seq::<
                            DiagnosticView,
                        >::empty());
                    },
                }
                assert(resolved_views(resolved@) =~= resolved_views(old(resolved)@) + Seq::<
                    ResolvedBasicEventView,
                >::empty());
            },
            EstimateOutcome::Failed(e) => {
                let head = cat9(
                    "basic event '",
                    be_id,
                    "' (fault tree '",
                    ft,
                    "'): cannot resolve reliability estimate '",
                    est,
                    "' from source '",
                    src,
                    "': ",
                );
                push_error(diagnostics, "E-112", cat(head.as_str(), e.as_str()));
                assert(resolved_views(resolved@) =~= resolved_views(old(resolved)@) + Seq::<
                    ResolvedBasicEventView,
                >::empty());
            },
        }
    } else {
        push_error(
            diagnostics,
            "E-112",
            cat9(
                "basic event '",
                be_id,
                "' (fault tree '",
                ft,
                "'): reliability estimate '",
                est,
                "' from source '",
                src,
                "' does not exist in the artifact",
            ),
        );
        assert(resolved_views(resolved@) =~= resolved_views(old(resolved)@) + Seq::<
            ResolvedBasicEventView,
        >::empty());
    }
}

/// Resolve one basic event's `x-reliability` annotation, if it has one.
fn resolve_event(
    ft: &str,
    be_id: &str,
    be: &BasicEvent,
    loads: &Vec<SourceLoad>,
    policy: UnknownProbabilityPolicy,
    diagnostics: &mut Vec<Diagnostic>,
    resolved: &mut Vec<ResolvedBasicEvent>,
)
    ensures
        views(final(diagnostics)@) == views(old(diagnostics)@) + event_diags(
            ft@,
            be_id@,
            *be,
            loads@,
            policy,
        ),
        resolved_views(final(resolved)@) == resolved_views(old(resolved)@) + event_resolved(
            ft@,
            be_id@,
            *be,
            loads@,
        ),
{
    match (&be.reliability_source, &be.reliability_estimate) {
        (Some(src), Some(est)) => {
            proof {
                lemma_slot(loads@, loads@.len() as int, src@);
            }
            match find_artifact(loads, src.as_str()) {
                None => {
                    push_error(
                        diagnostics,
                        "E-111",
                        cat7(
                            "basic event '",
                            be_id,
                            "' (fault tree '",
                            ft,
                            "') references reliability source '",
                            src.as_str(),
                            "' which is not declared in x-reliability.sources",
                        ),
                    );
                    assert(resolved_views(resolved@) =~= resolved_views(old(resolved)@) + Seq::<
                        ResolvedBasicEventView,
                    >::empty());
                },
                Some(i) => {
                    match &loads[i].artifact {
                        Ok(a) => {
                            resolve_estimate(
                                ft,
                                be_id,
                                src.as_str(),
                                est.as_str(),
                                a,
                                policy,
                                diagnostics,
                                resolved,
                            );
                        },
                        Err(_) => {},
                    }
                },
            }
        },
        _ => {
            assert(views(diagnostics@) =~= views(old(diagnostics)@) + Seq::<DiagnosticView>::empty());
            assert(resolved_views(resolved@) =~= resolved_views(old(resolved)@) + Seq::<
                ResolvedBasicEventView,
            >::empty());
        },
    }
}

} // verus!

verus! {

fn resolve_tree(
    t: &FaultTreeEntry,
    loads: &Vec<SourceLoad>,
    policy: UnknownProbabilityPolicy,
    diagnostics: &mut Vec<Diagnostic>,
    resolved: &mut Vec<ResolvedBasicEvent>,
)
    ensures
        views(final(diagnostics)@) == views(old(diagnostics)@) + tree_diags(*t, loads@, policy),
        resolved_views(final(resolved)@) == resolved_views(old(resolved)@) + tree_resolved(
            *t,
            loads@,
        ),
{
    let bes = &t.tree.basic_events;
    let ghost fd = |e: BasicEventEntry| event_diags(t.name@, e.id@, e.event, loads@, policy);
    let ghost fr = |e: BasicEventEntry| event_resolved(t.name@, e.id@, e.event, loads@);
    proof {
        lemma_flat_map_empty(bes@, fd);
        lemma_flat_map_empty(bes@, fr);
    }
    let mut i: usize = 0;
    while i < bes.len()
        invariant
            i <= bes@.len(),
            bes@ == t.tree.basic_events@,
            fd == (|e: BasicEventEntry| event_diags(t.name@, e.id@, e.event, loads@, policy)),
            fr == (|e: BasicEventEntry| event_resolved(t.name@, e.id@, e.event, loads@)),
            views(diagnostics@) == views(old(diagnostics)@) + bes@.take(i as int).flat_map(fd),
            resolved_views(resolved@) == resolved_views(old(resolved)@) + bes@.take(
                i as int,
            ).flat_map(fr),
        decreases bes.len() - i,
    {
        let e = &bes[i];
        resolve_event(
            t.name.as_str(),
            e.id.as_str(),
            &e.event,
            loads,
            policy,
            diagnostics,
            resolved,
        );
        proof {
            lemma_flat_map_step(bes@, fd, i as int);
            lemma_flat_map_step(bes@, fr, i as int);
        }
        i = i + 1;
    }
    proof {
        lemma_take_all(bes@);
    }
}

fn resolve_trees(
    doc: &Document,
    loads: &Vec<SourceLoad>,
    policy: UnknownProbabilityPolicy,
    diagnostics: &mut Vec<Diagnostic>,
    resolved: &mut Vec<ResolvedBasicEvent>,
)
    ensures
        views(final(diagnostics)@) == views(old(diagnostics)@) + trees_of(*doc).flat_map(
            |t: FaultTreeEntry| tree_diags(t, loads@, policy),
        ),
        resolved_views(final(resolved)@) == resolved_views(old(resolved)@) + trees_of(
            *doc,
        ).flat_map(|t: FaultTreeEntry| tree_resolved(t, loads@)),
{
    let ghost fd = |t: FaultTreeEntry| tree_diags(t, loads@, policy);
    let ghost fr = |t: FaultTreeEntry| tree_resolved(t, loads@);
    match &doc.fault_trees {
        None => {
            assert(trees_of(*doc).flat_map(fd) =~= Seq::<DiagnosticView>::empty()) by {
                assert(trees_of(*doc).map_values(fd) =~= Seq::<Seq<DiagnosticView>>::empty());
            }
            assert(trees_of(*doc).flat_map(fr) =~= Seq::<ResolvedBasicEventView>::empty()) by {
                assert(trees_of(*doc).map_values(fr) =~= Seq::<Seq<ResolvedBasicEventView>>::empty());
            }
            assert(views(diagnostics@) =~= views(old(diagnostics)@) + Seq::<DiagnosticView>::empty());
            assert(resolved_views(resolved@) =~= resolved_views(old(resolved)@) + Seq::<
                ResolvedBasicEventView,
            >::empty());
        },
        Some(ts) => {
            proof {
                lemma_flat_map_empty(ts@, fd);
                lemma_flat_map_empty(ts@, fr);
            }
            let mut i: usize = 0;
            while i < ts.len()
                invariant
                    i <= ts@.len(),
                    ts@ == trees_of(*doc),
                    fd == (|t: FaultTreeEntry| tree_diags(t, loads@, policy)),
                    fr == (|t: FaultTreeEntry| tree_resolved(t, loads@)),
                    views(diagnostics@) == views(old(diagnostics)@) + ts@.take(i as int).flat_map(fd),
                    resolved_views(resolved@) == resolved_views(old(resolved)@) + ts@.take(
                        i as int,
                    ).flat_map(fr),
                decreases ts.len() - i,
            {
                resolve_tree(&ts[i], loads, policy, diagnostics, resolved);
                proof {
                    lemma_flat_map_step(ts@, fd, i as int);
                    lemma_flat_map_step(ts@, fr, i as int);
                }
                i = i + 1;
            }
            proof {
                lemma_take_all(ts@);
            }
        },
    }
}

/// Report each source whose artifact could not be had (E-110) and list the
/// files of those that loaded; `true` where at least one loaded.
fn check_loads(loads: &Vec<SourceLoad>, diagnostics: &mut Vec<Diagnostic>) -> (r: (Vec<String>, bool))
    ensures
        views(final(diagnostics)@) == views(old(diagnostics)@) + load_diags(loads@),
        r.0@.map_values(|f: String| f@) == loaded_files(loads@),
        r.1 == (exists|i: int| 0 <= i < loads@.len() && loads@[i].artifact is Ok),
{
    let ghost fd = |l: SourceLoad|
        match l.artifact {
            Ok(_) => Seq::<DiagnosticView>::empty(),
            Err(e) => seq![error_view("E-110"@, "reliability source '"@ + l.file@ + "': "@ + e@)],
        };
    let ghost ff = |l: SourceLoad|
        match l.artifact {
            Ok(_) => seq![l.file@],
            Err(_) => Seq::<Seq<char>>::empty(),
        };
    proof {
        lemma_flat_map_empty(loads@, fd);
        lemma_flat_map_empty(loads@, ff);
    }
    let mut files: Vec<String> = Vec::new();
    let mut any = false;
    let mut i: usize = 0;
    while i < loads.len()
        invariant
            i <= loads@.len(),
            fd == (|l: SourceLoad|
                match l.artifact {
                    Ok(_) => Seq::<DiagnosticView>::empty(),
                    Err(e) => seq![error_view("E-110"@, "reliability source '"@ + l.file@ + "': "@ + e@)],
                }),
            ff == (|l: SourceLoad|
                match l.artifact {
                    Ok(_) => seq![l.file@],
                    Err(_) => Seq::<Seq<char>>::empty(),
                }),
            views(diagnostics@) == views(old(diagnostics)@) + loads@.take(i as int).flat_map(fd),
            files@.map_values(|f: String| f@) == loads@.take(i as int).flat_map(ff),
            any == (exists|j: int| 0 <= j < i && loads@[j].artifact is Ok),
        decreases loads.len() - i,
    {
        let l = &loads[i];
        match &l.artifact {
            Ok(_) => {
                files.push(owned(l.file.as_str()));
                any = true;
                assert(views(diagnostics@) =~= views(old(diagnostics)@) + loads@.take(i as int).flat_map(fd) + fd(loads@[i as int]));
            },
            Err(e) => {
                let head = cat3("reliability source '", l.file.as_str(), "': ");
                push_error(diagnostics, "E-110", cat(head.as_str(), e.as_str()));
            },
        }
        proof {
            lemma_flat_map_step(loads@, fd, i as int);
            lemma_flat_map_step(loads@, ff, i as int);
            assert(files@.map_values(|f: String| f@) =~= loads@.take(i as int).flat_map(ff) + ff(loads@[i as int]));
        }
        i = i + 1;
    }
    proof {
        lemma_take_all(loads@);
    }
    (files, any)
}

/// What resolving a document's reliability sources gives.
#[derive(Debug)]
pub struct ReliabilityResult {
    /// The basic events whose probability comes from an artifact, in document order.
    pub resolved: Vec<ResolvedBasicEvent>,
    /// The files of the artifacts that loaded, in the order of the sources.
    pub artifact_files: Vec<String>,
    /// Whether a build manifest is written: something resolved or some artifact loaded.
    pub manifest_due: bool,
}

/// Resolve the document's external probability sources, before any
/// fault-tree evaluation.
///
/// `loads` holds, for each configured source in order, its artifact or why
/// it could not be had. A document that does not declare the
/// `etdl.reliability` supplement resolves nothing and reports nothing.
/// Otherwise each source that failed to load is reported (E-110); then every
/// basic event annotated with `x-reliability: { source, estimate }` is
/// resolved from the last loaded artifact of that source id: an undeclared
/// source is E-111; an estimate that resolves yields a probability; one with
/// no deterministic value is E-112, W-408 or nothing, by `policy`; one that
/// is missing or fails to resolve is E-112. Where any of these is an error,
/// the result is empty: nothing resolved and no manifest.
pub fn resolve_reliability(
    doc: &Document,
    loads: &Vec<SourceLoad>,
    policy: UnknownProbabilityPolicy,
    diagnostics: &mut Vec<Diagnostic>,
) -> (r: ReliabilityResult)
    ensures
        declares(*doc, reliability_id()) ==> views(final(diagnostics)@) == views(old(diagnostics)@)
            + resolution_diags(*doc, loads@, policy),
        !declares(*doc, reliability_id()) ==> views(final(diagnostics)@) == views(
            old(diagnostics)@,
        ),
        !declares(*doc, reliability_id()) || has_error(resolution_diags(*doc, loads@, policy))
            ==> {
            &&& r.resolved@.len() == 0
            &&& r.artifact_files@.len() == 0
            &&& !r.manifest_due
        },
        declares(*doc, reliability_id()) && !has_error(resolution_diags(*doc, loads@, policy))
            ==> {
            &&& resolved_views(r.resolved@) == resolution_resolved(*doc, loads@)
            &&& r.artifact_files@.map_values(|f: String| f@) == loaded_files(loads@)
            &&& r.manifest_due == (r.resolved@.len() > 0 || exists|i: int|
                0 <= i < loads@.len() && loads@[i].artifact is Ok)
        },
{
    if !declares_supplement(doc, "etdl.reliability") {
        return ReliabilityResult { resolved: Vec::new(), artifact_files: Vec::new(), manifest_due: false };
    }
    let mut found: Vec<Diagnostic> = Vec::new();
    let (artifact_files, any_loaded) = check_loads(loads, &mut found);
    let mut resolved: Vec<ResolvedBasicEvent> = Vec::new();
    resolve_trees(doc, loads, policy, &mut found, &mut resolved);
    assert(resolved_views(resolved@) =~= resolution_resolved(*doc, loads@));
    assert(views(found@) =~= resolution_diags(*doc, loads@, policy));
    let failed = any_error(&found);
    extend_diags(diagnostics, found);
    if failed {
        return ReliabilityResult { resolved: Vec::new(), artifact_files: Vec::new(), manifest_due: false };
    }
    let manifest_due = resolved.len() > 0 || any_loaded;
    ReliabilityResult { resolved, artifact_files, manifest_due }
}

} // verus!

verus! {

/// Whether some `/`-separated segment of `file` is `..`.
pub open spec fn escapes_root(file: Seq<char>) -> bool {
    crate::text::split(file, '/').contains(".."@)
}

/// `file` has no leading `/` and no `\` or `:` anywhere: relative, with
/// no root and no drive or network prefix, on every platform.
pub open spec fn plain_relative(file: Seq<char>) -> bool {
    &&& !(file.len() > 0 && file[0] == '/')
    &&& !file.contains('\\')
    &&& !file.contains(':')
}

/// `base` has no `\` or `:`: no drive or network prefix on any platform.
pub open spec fn plain_base(base: Seq<char>) -> bool {
    !base.contains('\\') && !base.contains(':')
}

/// `r` is `file` appended to `base`, directly or after one separator.
pub open spec fn joined(base: Seq<char>, file: Seq<char>, r: Seq<char>) -> bool {
    ||| r == base + file
    ||| r == base + "/"@ + file
    ||| r == base + "\\"@ + file
}

/// Whether `p` is an absolute path (std's `Path::is_absolute`). What makes
/// a path absolute differs between platforms (a leading `/` on Unix, a
/// prefix and a root on Windows); what holds on all of them is stated: a
/// path with no leading `/` and no `\` or `:` is not absolute.
#[verifier::external_body]
fn path_is_absolute(p: &str) -> (b: bool)
    ensures
        plain_relative(p@) ==> !b,
{
    std::path::Path::new(p).is_absolute()
}

/// `base` joined with `p` (std's `Path::join`, then `to_string_lossy`).
/// The separator depends on the platform; what holds on all of them is
/// stated: where `p` is plainly relative and `base` has no prefix, `p` is
/// appended to `base`, after a `/` or `\` where one is needed.
#[verifier::external_body]
fn path_join(base: &str, p: &str) -> (r: String)
    ensures
        plain_base(base@) && plain_relative(p@) ==> joined(base@, p@, r@),
{
    std::path::Path::new(base).join(p).to_string_lossy().into_owned()
}

/// The path of a reliability source's file: refused where a segment of
/// `file` is `..` (a local source must not escape the project root);
/// otherwise `file` itself where it is absolute, else `file` under `base_dir`.
pub fn resolve_path(base_dir: &str, file: &str) -> (r: Result<String, String>)
    ensures
        r is Err <==> escapes_root(file@),
        r is Err ==> r->Err_0@ == "reliability source '"@ + file@
            + "' must not contain '..' (path traversal outside the project root is forbidden)"@,
        r is Ok && plain_base(base_dir@) && plain_relative(file@) ==> joined(base_dir@, file@, r->Ok_0@),
{
    let parts = split_on(file, '/');
    let ghost ps = parts@.map_values(|p: &str| p@);
    let mut i: usize = 0;
    while i < parts.len()
        invariant
            i <= parts@.len(),
            ps == parts@.map_values(|p: &str| p@),
            ps == crate::text::split(file@, '/'),
            forall|j: int| 0 <= j < i ==> ps[j] != ".."@,
        decreases parts.len() - i,
    {
        if same(parts[i], "..") {
            assert(ps[i as int] == ".."@);
            return Err(
                cat3(
                    "reliability source '",
                    file,
                    "' must not contain '..' (path traversal outside the project root is forbidden)",
                ),
            );
        }
        i = i + 1;
    }
    assert(!ps.contains(".."@));
    if path_is_absolute(file) {
        Ok(owned(file))
    } else {
        Ok(path_join(base_dir, file))
    }
}

} // verus!

verus! {

/// A compiled-in implementation and its version, recorded in a build manifest.
#[derive(Debug, Clone)]
pub struct ImplementationVersion {
    pub name: String,
    pub version: String,
}

/// A supplement that a build used, recorded in a build manifest.
#[derive(Debug, Clone)]
pub struct SupplementUsed {
    pub id: String,
    pub version: String,
}

/// The supplements the document declares, as the build manifest records them.
pub fn supplements_used(doc: &Document) -> (r: Vec<SupplementUsed>)
    ensures
        r@.map_values(|u: SupplementUsed| (u.id@, u.version@)) == doc.supplements@.map_values(
            |s: crate::model::Supplement| (s.id@, s.version@),
        ),
{
    let mut r: Vec<SupplementUsed> = Vec::new();
    let mut i: usize = 0;
    while i < doc.supplements.len()
        invariant
            i <= doc.supplements@.len(),
            r@.map_values(|u: SupplementUsed| (u.id@, u.version@)) == doc.supplements@.take(
                i as int,
            ).map_values(|s: crate::model::Supplement| (s.id@, s.version@)),
        decreases doc.supplements.len() - i,
    {
        let s = &doc.supplements[i];
        let ghost before = r@;
        let u = SupplementUsed { id: owned(s.id.as_str()), version: owned(s.version.as_str()) };
        r.push(u);
        proof {
            let f = |u: SupplementUsed| (u.id@, u.version@);
            let g = |s: crate::model::Supplement| (s.id@, s.version@);
            assert(r@ == before.push(u));
            assert(r@.map_values(f) =~= before.map_values(f).push(f(u)));
            assert(doc.supplements@.take(i as int + 1) =~= doc.supplements@.take(i as int).push(*s));
            assert(doc.supplements@.take(i as int + 1).map_values(g) =~= doc.supplements@.take(
                i as int,
            ).map_values(g).push(g(*s)));
        }
        i = i + 1;
    }
    assert(doc.supplements@.take(doc.supplements@.len() as int) =~= doc.supplements@);
    r
}

} // verus!
