//! Structural and semantic validation of ETDL documents: language version,
//! supplement declarations, library declarations, references, event-tree
//! structure and fault-tree structure.

use vstd::prelude::*;
use crate::diagnostic::{
    error_view, warning_view, located, views, push_diag, extend_diags, lemma_flat_map_step,
    lemma_flat_map_empty, lemma_take_all, error_at, DiagnosticView, SpanKey, SpanKeyView,
};
use crate::extension::{builtin_ids, builtin_registry, string_views};
use crate::model::{
    Document, Supplement, AsyncApiRegistry, ExternalRef, MessageRef, ChannelRef, Node, NodeEntry,
    EventTreeEntry, FaultTreeEntry, BasicEventEntry, LibraryImport, index_of, lemma_index_of_is,
};
use crate::stdlib::{LibraryError, library_error_text};
use crate::event_graph::{event_tree_diags, validate_event_trees};
use crate::fault_structure::{fault_tree_diags, validate_fault_trees};
use crate::text::{
    strip_prefix, is_lower, is_digit, is_alnum, leading_major, decimal, chars_of, owned, cat3,
    cat5, strip_one_prefix, parse_leading_major, decimal_string, same,
};

pub use crate::diagnostic::{Diagnostic, DiagnosticSeverity};

verus! {

// ---------------------------------------------------------------------------
// Supplement declarations (E-106, E-107, E-108, W-407)
// ---------------------------------------------------------------------------

pub open spec fn is_domain_char(c: char) -> bool {
    is_lower(c) || is_digit(c) || c == '-'
}

/// A supplement id has the form `etdl.<domain>`, the domain non-empty and
/// made of lowercase ASCII letters, digits and `-`.
pub open spec fn valid_supplement_id(id: Seq<char>) -> bool {
    match strip_prefix(id, "etdl."@) {
        Some(d) => d.len() > 0 && forall|i: int| 0 <= i < d.len() ==> is_domain_char(#[trigger] d[i]),
        None => false,
    }
}

/// Whether the compiler implements supplement `id`: built in, or registered
/// by the caller.
pub open spec fn supported(id: Seq<char>, registered: Seq<Seq<char>>) -> bool {
    builtin_ids().contains(id) || registered.contains(id)
}

/// The diagnostics one supplement declaration yields.
pub open spec fn supplement_diags(sup: Supplement, registered: Seq<Seq<char>>) -> Seq<
    DiagnosticView,
> {
    let id = sup.id@;
    let ver = sup.version@;
    let ok = supported(id, registered);
    (if valid_supplement_id(id) {
        Seq::empty()
    } else {
        seq![
            error_view(
                "E-106"@,
                "supplement id '"@ + id
                    + "' is not a valid supplement identifier (must be 'etdl.<domain>')"@,
            ),
        ]
    }) + (match leading_major(ver) {
        None => seq![
            error_view(
                "E-107"@,
                "supplement '"@ + id + "' version '"@ + ver + "' is not valid SemVer"@,
            ),
        ],
        Some(m) => if ok && m > 1 {
            seq![
                error_view(
                    "E-107"@,
                    "supplement '"@ + id + "' version '"@ + ver + "' uses future major "@
                        + decimal(m as nat) + " (supports major 1)"@,
                ),
            ]
        } else {
            Seq::empty()
        },
    }) + (if sup.required && !ok {
        seq![
            error_view(
                "E-108"@,
                "supplement '"@ + id
                    + "' is required: true but is not implemented by this compiler"@,
            ),
        ]
    } else {
        Seq::empty()
    }) + (if !sup.required && !ok {
        seq![
            warning_view(
                "W-407"@,
                "supplement '"@ + id
                    + "' is not implemented by this compiler; its semantics will not be applied"@,
            ),
        ]
    } else {
        Seq::empty()
    })
}

/// The diagnostics of every supplement declaration, in order.
pub open spec fn supplements_diags(doc: Document, registered: Seq<Seq<char>>) -> Seq<
    DiagnosticView,
> {
    doc.supplements@.flat_map(|s: Supplement| supplement_diags(s, registered))
}

fn is_valid_supplement_id(id: &str) -> (b: bool)
    ensures
        b == valid_supplement_id(id@),
{
    match strip_one_prefix(id, "etdl.") {
        Some(d) => {
            let v = chars_of(d);
            assert(strip_prefix(id@, "etdl."@) == Some(v@));
            if v.len() == 0 {
                return false;
            }
            let mut i: usize = 0;
            while i < v.len()
                invariant
                    i <= v.len(),
                    v@ == d@,
                    strip_prefix(id@, "etdl."@) == Some(v@),
                    forall|j: int| 0 <= j < i ==> is_domain_char(#[trigger] v@[j]),
                decreases v.len() - i,
            {
                let c = v[i];
                if !(('a' <= c && c <= 'z') || ('0' <= c && c <= '9') || c == '-') {
                    assert(!is_domain_char(v@[i as int]));
                    return false;
                }
                i = i + 1;
            }
            true
        },
        None => false,
    }
}

/// Whether `xs` holds a string with the characters of `x`.
pub fn list_contains(xs: &Vec<String>, x: &str) -> (b: bool)
    ensures
        b == string_views(xs@).contains(x@),
{
    let mut i: usize = 0;
    while i < xs.len()
        invariant
            i <= xs@.len(),
            forall|j: int| 0 <= j < i ==> xs@[j]@ != x@,
        decreases xs.len() - i,
    {
        if same(xs[i].as_str(), x) {
            assert(string_views(xs@)[i as int] == x@);
            return true;
        }
        i = i + 1;
    }
    proof {
        if string_views(xs@).contains(x@) {
            let j = choose|j: int| 0 <= j < xs@.len() && string_views(xs@)[j] == x@;
            assert(xs@[j]@ == x@);
        }
    }
    false
}

/// Whether a supplement id is implemented by this compiler build, either
/// built in or registered by the caller (`registered_extensions`).
pub fn supplement_is_supported(id: &str, registered_extensions: &Vec<String>) -> (b: bool)
    ensures
        b == supported(id@, string_views(registered_extensions@)),
{
    let registry = builtin_registry();
    let builtin = registry.contains(id);
    proof {
        assert(builtin == registry.ids().to_set().contains(id@));
    }
    builtin || list_contains(registered_extensions, id)
}

fn supplement_diagnostics(sup: &Supplement, registered: &Vec<String>) -> (r: Vec<Diagnostic>)
    ensures
        views(r@) == supplement_diags(*sup, string_views(registered@)),
{
    let mut out: Vec<Diagnostic> = Vec::new();
    let id = sup.id.as_str();
    let ver = sup.version.as_str();
    let ok = supplement_is_supported(id, registered);
    let ghost part1: Seq<DiagnosticView> = if valid_supplement_id(id@) {
        Seq::empty()
    } else {
        seq![
            error_view(
                "E-106"@,
                "supplement id '"@ + id@
                    + "' is not a valid supplement identifier (must be 'etdl.<domain>')"@,
            ),
        ]
    };
    if !is_valid_supplement_id(id) {
        push_diag(
            &mut out,
            Diagnostic::error(
                "E-106",
                cat3(
                    "supplement id '",
                    id,
                    "' is not a valid supplement identifier (must be 'etdl.<domain>')",
                ),
            ),
        );
    }
    assert(views(out@) =~= part1);
    match parse_leading_major(ver) {
        None => {
            push_diag(
                &mut out,
                Diagnostic::error(
                    "E-107",
                    cat5("supplement '", id, "' version '", ver, "' is not valid SemVer"),
                ),
            );
        },
        Some(m) => {
            if ok && m > 1 {
                let msg = cat5("supplement '", id, "' version '", ver, "' uses future major ")
                    .concat(decimal_string(m).as_str()).concat(" (supports major 1)");
                push_diag(&mut out, Diagnostic::error("E-107", msg));
            }
        },
    }
    if sup.required && !ok {
        push_diag(
            &mut out,
            Diagnostic::error(
                "E-108",
                cat3(
                    "supplement '",
                    id,
                    "' is required: true but is not implemented by this compiler",
                ),
            ),
        );
    }
    if !sup.required && !ok {
        push_diag(
            &mut out,
            Diagnostic::warning(
                "W-407",
                cat3(
                    "supplement '",
                    id,
                    "' is not implemented by this compiler; its semantics will not be applied",
                ),
            ),
        );
    }
    assert(views(out@) =~= supplement_diags(*sup, string_views(registered@)));
    out
}

/// Validate supplement declarations: E-106 invalid id, E-107 invalid or
/// future version, E-108 required-but-unsupported, W-407
/// optional-but-unsupported.
pub fn validate_supplements(
    doc: &Document,
    registered_extensions: &Vec<String>,
    diagnostics: &mut Vec<Diagnostic>,
)
    ensures
        views(final(diagnostics)@) == views(old(diagnostics)@) + supplements_diags(
            *doc,
            string_views(registered_extensions@),
        ),
{
    let ghost reg = string_views(registered_extensions@);
    let ghost f = |s: Supplement| supplement_diags(s, reg);
    let mut i: usize = 0;
    proof {
        lemma_flat_map_empty(doc.supplements@, f);
    }
    while i < doc.supplements.len()
        invariant
            i <= doc.supplements@.len(),
            reg == string_views(registered_extensions@),
            f == (|s: Supplement| supplement_diags(s, reg)),
            views(diagnostics@) == views(old(diagnostics)@) + doc.supplements@.take(
                i as int,
            ).flat_map(f),
        decreases doc.supplements.len() - i,
    {
        let more = supplement_diagnostics(&doc.supplements[i], registered_extensions);
        extend_diags(diagnostics, more);
        proof {
            lemma_flat_map_step(doc.supplements@, f, i as int);
        }
        i = i + 1;
    }
    proof {
        lemma_take_all(doc.supplements@);
    }
}

/// Whether the document declares supplement `id`.
pub open spec fn declares(doc: Document, id: Seq<char>) -> bool {
    exists|i: int| 0 <= i < doc.supplements@.len() && doc.supplements@[i].id@ == id
}

/// Whether the document declares supplement `id`.
pub fn declares_supplement(doc: &Document, id: &str) -> (b: bool)
    ensures
        b == declares(*doc, id@),
{
    let mut i: usize = 0;
    while i < doc.supplements.len()
        invariant
            i <= doc.supplements@.len(),
            forall|j: int| 0 <= j < i ==> doc.supplements@[j].id@ != id@,
        decreases doc.supplements.len() - i,
    {
        if same(doc.supplements[i].id.as_str(), id) {
            return true;
        }
        i = i + 1;
    }
    false
}

/// The major component of a supplement version (`"1.2"` gives `Some(1)`).
pub fn parse_supplement_major(version: &str) -> (r: Option<u64>)
    ensures
        r == leading_major(version@),
{
    parse_leading_major(version)
}

// ---------------------------------------------------------------------------
// Language version (E-100)
// ---------------------------------------------------------------------------

/// The diagnostics the document's `etdl` version yields: none when its
/// major is 1 or below.
pub open spec fn version_diags(doc: Document) -> Seq<DiagnosticView> {
    let v = doc.etdl@;
    match leading_major(v) {
        None => seq![
            error_view(
                "E-100"@,
                "document 'etdl' version '"@ + v + "' is not a valid semantic version"@,
            ),
        ],
        Some(m) => if m > 1 {
            seq![
                error_view(
                    "E-100"@,
                    "document 'etdl' version '"@ + v + "' has major version "@ + decimal(
                        m as nat,
                    ) + " which is not supported by this compiler (supports major 1)"@,
                ),
            ]
        } else {
            Seq::empty()
        },
    }
}

/// Validate the document's `etdl` language version: any document whose
/// major matches the supported major (1), or is lower, is accepted.
pub fn validate_language_version(doc: &Document, diagnostics: &mut Vec<Diagnostic>)
    ensures
        views(final(diagnostics)@) == views(old(diagnostics)@) + version_diags(*doc),
{
    let v = doc.etdl.as_str();
    match parse_leading_major(v) {
        None => {
            push_diag(
                diagnostics,
                Diagnostic::error(
                    "E-100",
                    cat3("document 'etdl' version '", v, "' is not a valid semantic version"),
                ),
            );
        },
        Some(m) => {
            if m > 1 {
                let msg = cat3("document 'etdl' version '", v, "' has major version ").concat(
                    decimal_string(m).as_str(),
                ).concat(" which is not supported by this compiler (supports major 1)");
                push_diag(diagnostics, Diagnostic::error("E-100", msg));
            } else {
                assert(views(diagnostics@) =~= views(old(diagnostics)@) + version_diags(*doc));
            }
        },
    }
}

// ---------------------------------------------------------------------------
// References (E-101, E-103, E-104, E-105)
// ---------------------------------------------------------------------------

/// An import alias is made of ASCII letters, digits and `_`.
pub open spec fn alias_ok(a: Seq<char>) -> bool {
    forall|i: int| 0 <= i < a.len() ==> is_alnum(#[trigger] a[i]) || a[i] == '_'
}

/// E-103 for an import alias with other characters.
pub open spec fn alias_diag(a: String) -> Seq<DiagnosticView> {
    if alias_ok(a@) {
        Seq::empty()
    } else {
        seq![
            located(
                error_view("E-103"@, "import alias '"@ + a@ + "' contains invalid characters"@),
                SpanKeyView::ImportAlias { alias: a@ },
            ),
        ]
    }
}

/// Whether the registry resolves external reference `r`.
pub open spec fn resolves(reg: AsyncApiRegistry, r: ExternalRef) -> bool {
    exists|i: int|
        0 <= i < reg.resolvable@.len() && #[trigger] reg.resolvable@[i].alias@ == r.alias@
            && reg.resolvable@[i].pointer@ == r.pointer@
}

/// Whether internal pointer `p` is `#/components/messages/<id>` for a
/// message `id` the document declares under `components.messages`.
pub open spec fn internal_resolves(doc: Document, p: Seq<char>) -> bool {
    match strip_prefix(p, "#/components/messages/"@) {
        Some(id) => string_views(doc.component_messages@).contains(id),
        None => false,
    }
}

/// E-103 when the alias of `r` is not imported, else E-104 when its
/// pointer does not resolve; located at `key`, messages prefixed with
/// `context`.
pub open spec fn external_ref_diags(
    doc: Document,
    reg: AsyncApiRegistry,
    r: ExternalRef,
    context: Seq<char>,
    key: SpanKeyView,
) -> Seq<DiagnosticView> {
    if !string_views(doc.asyncapi_aliases@).contains(r.alias@) {
        seq![
            located(
                error_view(
                    "E-103"@,
                    context + ": import alias '"@ + r.alias@ + "' is not a key in asyncapi_imports"@,
                ),
                key,
            ),
        ]
    } else if !resolves(reg, r) {
        seq![
            located(
                error_view(
                    "E-104"@,
                    context + ": JSON Pointer '"@ + r.pointer@
                        + "' does not resolve in AsyncAPI document '"@ + r.alias@ + "'"@,
                ),
                key,
            ),
        ]
    } else {
        Seq::empty()
    }
}

/// The diagnostics of a message reference: an external one as above, an
/// internal one E-105 when it names no declared component message.
pub open spec fn message_ref_diags(
    doc: Document,
    reg: AsyncApiRegistry,
    m: MessageRef,
    context: Seq<char>,
    key: SpanKeyView,
) -> Seq<DiagnosticView> {
    match m {
        MessageRef::External(r) => external_ref_diags(doc, reg, r, context, key),
        MessageRef::Internal(p) => if internal_resolves(doc, p@) {
            Seq::empty()
        } else {
            seq![
                located(
                    error_view(
                        "E-105"@,
                        context + ": internal reference '"@ + p@
                            + "' does not resolve to an entry under components.messages"@,
                    ),
                    key,
                ),
            ]
        },
    }
}

/// The diagnostics of a channel reference: an external one as above; a
/// bare channel name E-101 when the document imports AsyncAPI documents.
pub open spec fn channel_ref_diags(
    doc: Document,
    reg: AsyncApiRegistry,
    c: ChannelRef,
    context: Seq<char>,
    key: SpanKeyView,
) -> Seq<DiagnosticView> {
    match c {
        ChannelRef::External(r) => external_ref_diags(doc, reg, r, context, key),
        ChannelRef::Bare(name) => if doc.asyncapi_aliases@.len() == 0 {
            Seq::empty()
        } else {
            seq![
                located(
                    error_view(
                        "E-101"@,
                        context + ": bare channel name '"@ + name@
                            + "' is only permitted when the document declares no asyncapi_imports (Section 5.3.5); use an External Reference"@,
                    ),
                    key,
                ),
            ]
        },
    }
}

/// The reference diagnostics of node `e` of tree `tree_name`.
pub open spec fn node_ref_diags(
    doc: Document,
    reg: AsyncApiRegistry,
    tree_name: Seq<char>,
    e: NodeEntry,
) -> Seq<DiagnosticView> {
    let id = e.id@;
    match e.node {
        Node::Operation(op) => match op.emits {
            Some(m) => message_ref_diags(
                doc,
                reg,
                m,
                "nodes."@ + id + ".emits"@,
                SpanKeyView::NodeField { tree: tree_name, id, field: "emits"@ },
            ),
            None => Seq::empty(),
        },
        Node::Consequence(c) => (match c.channel {
            Some(ch) => channel_ref_diags(
                doc,
                reg,
                ch,
                "nodes."@ + id + ".channel"@,
                SpanKeyView::NodeField { tree: tree_name, id, field: "channel"@ },
            ),
            None => Seq::empty(),
        }) + match c.message {
            Some(m) => message_ref_diags(
                doc,
                reg,
                m,
                "nodes."@ + id + ".message"@,
                SpanKeyView::NodeField { tree: tree_name, id, field: "message"@ },
            ),
            None => Seq::empty(),
        },
        Node::Barrier(_) => Seq::empty(),
    }
}

/// The reference diagnostics of event tree `e`.
pub open spec fn tree_ref_diags(doc: Document, reg: AsyncApiRegistry, e: EventTreeEntry) -> Seq<
    DiagnosticView,
> {
    message_ref_diags(
        doc,
        reg,
        e.tree.initiating_event.message,
        "initiatingEvent.message"@,
        SpanKeyView::InitiatingEvent { tree: e.name@, field: "message"@ },
    ) + e.tree.nodes@.flat_map(|n: NodeEntry| node_ref_diags(doc, reg, e.name@, n))
}

/// The reference diagnostic of basic event `b` of fault tree `ft_name`.
pub open spec fn be_ref_diags(
    doc: Document,
    reg: AsyncApiRegistry,
    ft_name: Seq<char>,
    b: BasicEventEntry,
) -> Seq<DiagnosticView> {
    match b.event.message {
        Some(m) => message_ref_diags(
            doc,
            reg,
            m,
            "basicEvent.message"@,
            SpanKeyView::BasicEventField { tree: ft_name, id: b.id@, field: "message"@ },
        ),
        None => Seq::empty(),
    }
}

/// The reference diagnostics of fault tree `e`.
pub open spec fn ft_ref_diags(doc: Document, reg: AsyncApiRegistry, e: FaultTreeEntry) -> Seq<
    DiagnosticView,
> {
    (match e.tree.top_event.message {
        Some(m) => message_ref_diags(
            doc,
            reg,
            m,
            "topEvent.message"@,
            SpanKeyView::TopEvent { tree: e.name@, field: "message"@ },
        ),
        None => Seq::empty(),
    }) + e.tree.basic_events@.flat_map(|b: BasicEventEntry| be_ref_diags(doc, reg, e.name@, b))
}

/// Every reference diagnostic of the document: aliases, then event trees,
/// then fault trees.
pub open spec fn reference_check_diags(doc: Document, reg: AsyncApiRegistry) -> Seq<DiagnosticView> {
    doc.asyncapi_aliases@.flat_map(|a: String| alias_diag(a)) + doc.event_trees@.flat_map(
        |e: EventTreeEntry| tree_ref_diags(doc, reg, e),
    ) + match doc.fault_trees {
        Some(fts) => fts@.flat_map(|e: FaultTreeEntry| ft_ref_diags(doc, reg, e)),
        None => Seq::empty(),
    }
}

fn alias_is_ok(a: &str) -> (b: bool)
    ensures
        b == alias_ok(a@),
{
    let v = chars_of(a);
    let mut i: usize = 0;
    while i < v.len()
        invariant
            i <= v.len(),
            v@ == a@,
            forall|j: int| 0 <= j < i ==> is_alnum(#[trigger] v@[j]) || v@[j] == '_',
        decreases v.len() - i,
    {
        let c = v[i];
        if !(('a' <= c && c <= 'z') || ('A' <= c && c <= 'Z') || ('0' <= c && c <= '9') || c
            == '_') {
            assert(!(is_alnum(v@[i as int]) || v@[i as int] == '_'));
            return false;
        }
        i = i + 1;
    }
    true
}

fn is_resolvable(reg: &AsyncApiRegistry, r: &ExternalRef) -> (b: bool)
    ensures
        b == resolves(*reg, *r),
{
    let mut i: usize = 0;
    while i < reg.resolvable.len()
        invariant
            i <= reg.resolvable@.len(),
            forall|j: int|
                0 <= j < i ==> !(#[trigger] reg.resolvable@[j].alias@ == r.alias@
                    && reg.resolvable@[j].pointer@ == r.pointer@),
        decreases reg.resolvable.len() - i,
    {
        if same(reg.resolvable[i].alias.as_str(), r.alias.as_str()) && same(
            reg.resolvable[i].pointer.as_str(),
            r.pointer.as_str(),
        ) {
            return true;
        }
        i = i + 1;
    }
    false
}

fn internal_ok(doc: &Document, p: &str) -> (b: bool)
    ensures
        b == internal_resolves(*doc, p@),
{
    match strip_one_prefix(p, "#/components/messages/") {
        Some(id) => list_contains(&doc.component_messages, id),
        None => false,
    }
}

fn external_ref_check(
    doc: &Document,
    reg: &AsyncApiRegistry,
    r: &ExternalRef,
    context: &str,
    key: SpanKey,
) -> (out: Vec<Diagnostic>)
    ensures
        views(out@) == external_ref_diags(*doc, *reg, *r, context@, key@),
{
    let mut out: Vec<Diagnostic> = Vec::new();
    if !list_contains(&doc.asyncapi_aliases, r.alias.as_str()) {
        let msg = cat3(context, ": import alias '", r.alias.as_str()).concat(
            "' is not a key in asyncapi_imports",
        );
        push_diag(&mut out, error_at("E-103", msg, key));
    } else if !is_resolvable(reg, r) {
        let msg = cat5(context, ": JSON Pointer '", r.pointer.as_str(),
            "' does not resolve in AsyncAPI document '", r.alias.as_str()).concat("'");
        push_diag(&mut out, error_at("E-104", msg, key));
    }
    assert(views(out@) =~= external_ref_diags(*doc, *reg, *r, context@, key@));
    out
}

fn message_ref_check(
    doc: &Document,
    reg: &AsyncApiRegistry,
    m: &MessageRef,
    context: &str,
    key: SpanKey,
) -> (out: Vec<Diagnostic>)
    ensures
        views(out@) == message_ref_diags(*doc, *reg, *m, context@, key@),
{
    match m {
        MessageRef::External(r) => external_ref_check(doc, reg, r, context, key),
        MessageRef::Internal(p) => {
            let mut out: Vec<Diagnostic> = Vec::new();
            if !internal_ok(doc, p.as_str()) {
                let msg = cat3(context, ": internal reference '", p.as_str()).concat(
                    "' does not resolve to an entry under components.messages",
                );
                push_diag(&mut out, error_at("E-105", msg, key));
            }
            assert(views(out@) =~= message_ref_diags(*doc, *reg, *m, context@, key@));
            out
        },
    }
}

fn channel_ref_check(
    doc: &Document,
    reg: &AsyncApiRegistry,
    c: &ChannelRef,
    context: &str,
    key: SpanKey,
) -> (out: Vec<Diagnostic>)
    ensures
        views(out@) == channel_ref_diags(*doc, *reg, *c, context@, key@),
{
    match c {
        ChannelRef::External(r) => external_ref_check(doc, reg, r, context, key),
        ChannelRef::Bare(name) => {
            let mut out: Vec<Diagnostic> = Vec::new();
            if doc.asyncapi_aliases.len() != 0 {
                let msg = cat3(context, ": bare channel name '", name.as_str()).concat(
                    "' is only permitted when the document declares no asyncapi_imports (Section 5.3.5); use an External Reference",
                );
                push_diag(&mut out, error_at("E-101", msg, key));
            }
            assert(views(out@) =~= channel_ref_diags(*doc, *reg, *c, context@, key@));
            out
        },
    }
}

fn node_field_key(tree: &str, id: &str, field: &str) -> (k: SpanKey)
    ensures
        k@ == (SpanKeyView::NodeField { tree: tree@, id: id@, field: field@ }),
{
    SpanKey::NodeField { tree: owned(tree), id: owned(id), field: owned(field) }
}

fn node_ref_check(doc: &Document, reg: &AsyncApiRegistry, tree_name: &str, e: &NodeEntry) -> (out:
    Vec<Diagnostic>)
    ensures
        views(out@) == node_ref_diags(*doc, *reg, tree_name@, *e),
{
    let id = e.id.as_str();
    let mut out: Vec<Diagnostic> = Vec::new();
    match &e.node {
        Node::Operation(op) => {
            match &op.emits {
                Some(m) => {
                    out = message_ref_check(doc, reg, m, cat3("nodes.", id, ".emits").as_str(),
                        node_field_key(tree_name, id, "emits"));
                },
                None => {},
            }
        },
        Node::Consequence(c) => {
            match &c.channel {
                Some(ch) => {
                    out = channel_ref_check(doc, reg, ch, cat3("nodes.", id, ".channel").as_str(),
                        node_field_key(tree_name, id, "channel"));
                },
                None => {},
            }
            match &c.message {
                Some(m) => {
                    let more = message_ref_check(doc, reg, m, cat3("nodes.", id, ".message").as_str(),
                        node_field_key(tree_name, id, "message"));
                    extend_diags(&mut out, more);
                },
                None => {},
            }
        },
        Node::Barrier(_) => {},
    }
    assert(views(out@) =~= node_ref_diags(*doc, *reg, tree_name@, *e));
    out
}

fn tree_ref_check(doc: &Document, reg: &AsyncApiRegistry, e: &EventTreeEntry) -> (out: Vec<
    Diagnostic,
>)
    ensures
        views(out@) == tree_ref_diags(*doc, *reg, *e),
{
    let name = e.name.as_str();
    let mut out = message_ref_check(doc, reg, &e.tree.initiating_event.message,
        "initiatingEvent.message",
        SpanKey::InitiatingEvent { tree: owned(name), field: owned("message") });
    let ghost d1 = views(out@);
    let ns = &e.tree.nodes;
    let ghost f = |n: NodeEntry| node_ref_diags(*doc, *reg, name@, n);
    proof {
        lemma_flat_map_empty(ns@, f);
    }
    let mut i: usize = 0;
    while i < ns.len()
        invariant
            i <= ns@.len(),
            ns@ == e.tree.nodes@,
            f == (|n: NodeEntry| node_ref_diags(*doc, *reg, name@, n)),
            views(out@) == d1 + ns@.take(i as int).flat_map(f),
        decreases ns.len() - i,
    {
        let more = node_ref_check(doc, reg, name, &ns[i]);
        extend_diags(&mut out, more);
        proof {
            lemma_flat_map_step(ns@, f, i as int);
        }
        i = i + 1;
    }
    proof {
        lemma_take_all(ns@);
    }
    out
}

fn ft_ref_check(doc: &Document, reg: &AsyncApiRegistry, e: &FaultTreeEntry) -> (out: Vec<
    Diagnostic,
>)
    ensures
        views(out@) == ft_ref_diags(*doc, *reg, *e),
{
    let name = e.name.as_str();
    let mut out: Vec<Diagnostic> = Vec::new();
    match &e.tree.top_event.message {
        Some(m) => {
            out = message_ref_check(doc, reg, m, "topEvent.message",
                SpanKey::TopEvent { tree: owned(name), field: owned("message") });
        },
        None => {},
    }
    let ghost d1 = views(out@);
    assert(d1 =~= match e.tree.top_event.message {
        Some(m) => message_ref_diags(
            *doc,
            *reg,
            m,
            "topEvent.message"@,
            SpanKeyView::TopEvent { tree: e.name@, field: "message"@ },
        ),
        None => Seq::empty(),
    });
    let bs = &e.tree.basic_events;
    let ghost f = |b: BasicEventEntry| be_ref_diags(*doc, *reg, name@, b);
    proof {
        lemma_flat_map_empty(bs@, f);
    }
    let mut i: usize = 0;
    while i < bs.len()
        invariant
            i <= bs@.len(),
            bs@ == e.tree.basic_events@,
            f == (|b: BasicEventEntry| be_ref_diags(*doc, *reg, name@, b)),
            views(out@) == d1 + bs@.take(i as int).flat_map(f),
        decreases bs.len() - i,
    {
        let b = &bs[i];
        let mut more: Vec<Diagnostic> = Vec::new();
        match &b.event.message {
            Some(m) => {
                more = message_ref_check(doc, reg, m, "basicEvent.message",
                    SpanKey::BasicEventField {
                        tree: owned(name),
                        id: owned(b.id.as_str()),
                        field: owned("message"),
                    });
            },
            None => {},
        }
        assert(views(more@) =~= f(bs@[i as int]));
        extend_diags(&mut out, more);
        proof {
            lemma_flat_map_step(bs@, f, i as int);
        }
        i = i + 1;
    }
    proof {
        lemma_take_all(bs@);
    }
    out
}

/// Check the document's references: E-103 import aliases with invalid
/// characters or unknown aliases, E-104 external pointers that do not
/// resolve, E-105 internal message references that do not resolve, E-101
/// bare channel names in a document that imports AsyncAPI documents.
pub fn validate_references(
    doc: &Document,
    registry: &AsyncApiRegistry,
    diagnostics: &mut Vec<Diagnostic>,
)
    ensures
        views(final(diagnostics)@) == views(old(diagnostics)@) + reference_check_diags(
            *doc,
            *registry,
        ),
{
    let ghost d0 = views(diagnostics@);
    let aliases = &doc.asyncapi_aliases;
    let ghost fa = |a: String| alias_diag(a);
    proof {
        lemma_flat_map_empty(aliases@, fa);
    }
    let mut i: usize = 0;
    while i < aliases.len()
        invariant
            i <= aliases@.len(),
            aliases@ == doc.asyncapi_aliases@,
            fa == (|a: String| alias_diag(a)),
            views(diagnostics@) == d0 + aliases@.take(i as int).flat_map(fa),
        decreases aliases.len() - i,
    {
        let a = aliases[i].as_str();
        let ghost before_ds = views(diagnostics@);
        if !alias_is_ok(a) {
            let msg = cat3("import alias '", a, "' contains invalid characters");
            push_diag(diagnostics, error_at("E-103", msg, SpanKey::ImportAlias { alias: owned(a) }));
        }
        proof {
            assert(views(diagnostics@) =~= before_ds + fa(aliases@[i as int]));
            lemma_flat_map_step(aliases@, fa, i as int);
        }
        i = i + 1;
    }
    proof {
        lemma_take_all(aliases@);
    }
    let ghost d1 = views(diagnostics@);
    let ts = &doc.event_trees;
    let ghost ft = |e: EventTreeEntry| tree_ref_diags(*doc, *registry, e);
    proof {
        lemma_flat_map_empty(ts@, ft);
    }
    let mut j: usize = 0;
    while j < ts.len()
        invariant
            j <= ts@.len(),
            ts@ == doc.event_trees@,
            ft == (|e: EventTreeEntry| tree_ref_diags(*doc, *registry, e)),
            views(diagnostics@) == d1 + ts@.take(j as int).flat_map(ft),
        decreases ts.len() - j,
    {
        let more = tree_ref_check(doc, registry, &ts[j]);
        extend_diags(diagnostics, more);
        proof {
            lemma_flat_map_step(ts@, ft, j as int);
        }
        j = j + 1;
    }
    proof {
        lemma_take_all(ts@);
    }
    let ghost d2 = views(diagnostics@);
    match &doc.fault_trees {
        Some(fts) => {
            let ghost ff = |e: FaultTreeEntry| ft_ref_diags(*doc, *registry, e);
            proof {
                lemma_flat_map_empty(fts@, ff);
            }
            let mut k: usize = 0;
            while k < fts.len()
                invariant
                    k <= fts@.len(),
                    ff == (|e: FaultTreeEntry| ft_ref_diags(*doc, *registry, e)),
                    views(diagnostics@) == d2 + fts@.take(k as int).flat_map(ff),
                decreases fts.len() - k,
            {
                let more = ft_ref_check(doc, registry, &fts[k]);
                extend_diags(diagnostics, more);
                proof {
                    lemma_flat_map_step(fts@, ff, k as int);
                }
                k = k + 1;
            }
            proof {
                lemma_take_all(fts@);
            }
        },
        None => {},
    }
    assert(views(diagnostics@) =~= d0 + reference_check_diags(*doc, *registry));
}

// ---------------------------------------------------------------------------
// Library declarations (E-113 .. E-117, W-409)
// ---------------------------------------------------------------------------

/// A library name: dotted segments of lowercase ASCII letters, digits and
/// `-` (non-empty, no leading, trailing or doubled `.`).
pub open spec fn library_name_ok(n: Seq<char>) -> bool {
    &&& n.len() > 0
    &&& n[0] != '.'
    &&& n.last() != '.'
    &&& !(exists|i: int| 0 <= i < n.len() - 1 && #[trigger] n[i] == '.' && n[i + 1] == '.')
    &&& forall|i: int|
        0 <= i < n.len() ==> is_lower(#[trigger] n[i]) || is_digit(n[i]) || n[i] == '.' || n[i]
            == '-'
}

/// E-113 for an import with an invalid library name.
pub open spec fn import_name_diag(l: LibraryImport) -> Seq<DiagnosticView> {
    if library_name_ok(l.name@) {
        Seq::empty()
    } else {
        seq![
            error_view(
                "E-113"@,
                "library name '"@ + l.name@
                    + "' is not a valid library identifier (dotted lowercase segments, e.g. 'std.events')"@,
            ),
        ]
    }
}

/// Whether a failed import of `name` is required: the first import of that
/// name decides; an undeclared name counts as required.
pub open spec fn import_required(doc: Document, name: Seq<char>) -> bool {
    let ls = doc.libraries@;
    let i = index_of(ls.map_values(|l: LibraryImport| l.name@), name);
    if i < ls.len() {
        ls[i].required
    } else {
        true
    }
}

/// The diagnostic a resolution error gives: E-117 a cycle, E-114 an
/// incompatible version, E-115 an invalid manifest; a missing or shadowed
/// library E-116 when its import is required, W-409 otherwise.
pub open spec fn library_error_diag(doc: Document, e: LibraryError) -> DiagnosticView {
    let text = library_error_text(e);
    match e {
        LibraryError::Cyclic { .. } => error_view("E-117"@, text),
        LibraryError::IncompatibleVersion { .. } => error_view("E-114"@, text),
        LibraryError::InvalidManifest { .. } => error_view("E-115"@, text),
        LibraryError::NotFound { name, .. } => if import_required(doc, name@) {
            error_view("E-116"@, text)
        } else {
            warning_view("W-409"@, text)
        },
        LibraryError::Shadowing { name, .. } => if import_required(doc, name@) {
            error_view("E-116"@, text)
        } else {
            warning_view("W-409"@, text)
        },
    }
}

/// The diagnostics of the library declarations: E-113 per invalid name,
/// then one per resolution error, in order.
pub open spec fn library_diags(doc: Document, errors: Seq<LibraryError>) -> Seq<DiagnosticView> {
    doc.libraries@.flat_map(|l: LibraryImport| import_name_diag(l)) + errors.map_values(
        |e: LibraryError| library_error_diag(doc, e),
    )
}

fn library_name_is_ok(n: &str) -> (b: bool)
    ensures
        b == library_name_ok(n@),
{
    let v = chars_of(n);
    if v.len() == 0 || v[0] == '.' || v[v.len() - 1] == '.' {
        return false;
    }
    let mut i: usize = 0;
    while i < v.len()
        invariant
            0 < v.len(),
            v@ == n@,
            i <= v.len(),
            forall|j: int|
                0 <= j < i ==> is_lower(#[trigger] v@[j]) || is_digit(v@[j]) || v@[j] == '.'
                    || v@[j] == '-',
            forall|j: int| 0 <= j < i && j < v.len() - 1 ==> !(#[trigger] v@[j] == '.' && v@[j + 1] == '.'),
        decreases v.len() - i,
    {
        let c = v[i];
        if !(('a' <= c && c <= 'z') || ('0' <= c && c <= '9') || c == '.' || c == '-') {
            assert(!(is_lower(v@[i as int]) || is_digit(v@[i as int]) || v@[i as int] == '.' || v@[i as int] == '-'));
            return false;
        }
        if c == '.' && i + 1 < v.len() && v[i + 1] == '.' {
            assert(v@[i as int] == '.' && v@[i + 1] == '.');
            return false;
        }
        i = i + 1;
    }
    true
}

fn import_is_required(doc: &Document, name: &str) -> (b: bool)
    ensures
        b == import_required(*doc, name@),
{
    let ls = &doc.libraries;
    let ghost ids = ls@.map_values(|l: LibraryImport| l.name@);
    let mut i: usize = 0;
    while i < ls.len()
        invariant
            i <= ls@.len(),
            ls@ == doc.libraries@,
            ids == ls@.map_values(|l: LibraryImport| l.name@),
            forall|j: int| 0 <= j < i ==> ids[j] != name@,
        decreases ls.len() - i,
    {
        if same(ls[i].name.as_str(), name) {
            proof {
                lemma_index_of_is(ids, name@, i as int);
            }
            return ls[i].required;
        }
        i = i + 1;
    }
    proof {
        lemma_index_of_is(ids, name@, i as int);
    }
    true
}

/// Validate declared library imports against the resolution errors the
/// library expansion produced: E-113 invalid name, E-114 incompatible
/// version, E-115 invalid manifest, E-116 required but unresolvable (or a
/// reserved `std.*` name from elsewhere), E-117 cyclic dependency, W-409
/// optional but unresolvable.
pub fn validate_libraries(
    doc: &Document,
    lib_errors: &Vec<LibraryError>,
    diagnostics: &mut Vec<Diagnostic>,
)
    ensures
        views(final(diagnostics)@) == views(old(diagnostics)@) + library_diags(*doc, lib_errors@),
{
    let ghost d0 = views(diagnostics@);
    let ls = &doc.libraries;
    let ghost f = |l: LibraryImport| import_name_diag(l);
    proof {
        lemma_flat_map_empty(ls@, f);
    }
    let mut i: usize = 0;
    while i < ls.len()
        invariant
            i <= ls@.len(),
            ls@ == doc.libraries@,
            f == (|l: LibraryImport| import_name_diag(l)),
            views(diagnostics@) == d0 + ls@.take(i as int).flat_map(f),
        decreases ls.len() - i,
    {
        let n = ls[i].name.as_str();
        let ghost before_ds = views(diagnostics@);
        if !library_name_is_ok(n) {
            let msg = cat3("library name '", n,
                "' is not a valid library identifier (dotted lowercase segments, e.g. 'std.events')");
            push_diag(diagnostics, Diagnostic::error("E-113", msg));
        }
        proof {
            assert(views(diagnostics@) =~= before_ds + f(ls@[i as int]));
            lemma_flat_map_step(ls@, f, i as int);
        }
        i = i + 1;
    }
    proof {
        lemma_take_all(ls@);
    }
    let ghost d1 = views(diagnostics@);
    let ghost g = |e: LibraryError| library_error_diag(*doc, e);
    let mut k: usize = 0;
    while k < lib_errors.len()
        invariant
            k <= lib_errors@.len(),
            g == (|e: LibraryError| library_error_diag(*doc, e)),
            views(diagnostics@) == d1 + lib_errors@.take(k as int).map_values(g),
        decreases lib_errors.len() - k,
    {
        let e = &lib_errors[k];
        let text = e.message();
        let d = match e {
            LibraryError::Cyclic { .. } => Diagnostic::error("E-117", text),
            LibraryError::IncompatibleVersion { .. } => Diagnostic::error("E-114", text),
            LibraryError::InvalidManifest { .. } => Diagnostic::error("E-115", text),
            LibraryError::NotFound { name, .. } => {
                if import_is_required(doc, name.as_str()) {
                    Diagnostic::error("E-116", text)
                } else {
                    Diagnostic::warning("W-409", text)
                }
            },
            LibraryError::Shadowing { name, .. } => {
                if import_is_required(doc, name.as_str()) {
                    Diagnostic::error("E-116", text)
                } else {
                    Diagnostic::warning("W-409", text)
                }
            },
        };
        assert(d@ == g(lib_errors@[k as int]));
        push_diag(diagnostics, d);
        proof {
            assert(lib_errors@.take(k + 1).map_values(g) =~= lib_errors@.take(k as int).map_values(g).push(g(lib_errors@[k as int])));
        }
        k = k + 1;
    }
    assert(lib_errors@.take(lib_errors@.len() as int) =~= lib_errors@);
    assert(views(diagnostics@) =~= d0 + library_diags(*doc, lib_errors@));
}

// ---------------------------------------------------------------------------
// The whole document
// ---------------------------------------------------------------------------

/// Every diagnostic of the document's validation, in the order it is
/// reported: language version, supplements, references, event trees, fault
/// trees.
pub open spec fn document_diags(
    doc: Document,
    registry: AsyncApiRegistry,
    registered: Seq<Seq<char>>,
) -> Seq<DiagnosticView> {
    version_diags(doc) + supplements_diags(doc, registered) + reference_check_diags(doc, registry)
        + event_tree_diags(doc) + fault_tree_diags(doc)
}

/// Validate a document, treating every id in `registered_extensions` as a
/// supported supplement besides the built-in ones.
pub fn validate_document_with_extensions(
    doc: &Document,
    registry: &AsyncApiRegistry,
    registered_extensions: &Vec<String>,
    diagnostics: &mut Vec<Diagnostic>,
)
    ensures
        views(final(diagnostics)@) == views(old(diagnostics)@) + document_diags(
            *doc,
            *registry,
            string_views(registered_extensions@),
        ),
{
    let ghost d0 = views(diagnostics@);
    validate_language_version(doc, diagnostics);
    validate_supplements(doc, registered_extensions, diagnostics);
    validate_references(doc, registry, diagnostics);
    validate_event_trees(doc, diagnostics);
    validate_fault_trees(doc, diagnostics);
    assert(views(diagnostics@) =~= d0 + document_diags(
        *doc,
        *registry,
        string_views(registered_extensions@),
    ));
}

/// Validate a document with the built-in supplements only.
pub fn validate_document(
    doc: &Document,
    registry: &AsyncApiRegistry,
    diagnostics: &mut Vec<Diagnostic>,
)
    ensures
        views(final(diagnostics)@) == views(old(diagnostics)@) + document_diags(
            *doc,
            *registry,
            Seq::empty(),
        ),
{
    let none: Vec<String> = Vec::new();
    assert(string_views(none@) =~= Seq::<Seq<char>>::empty());
    validate_document_with_extensions(doc, registry, &none, diagnostics);
}

/// Whether a message reference resolves: an external one to an imported
/// alias and a resolvable pointer, an internal one to a declared component
/// message.
pub open spec fn message_ref_resolves(doc: Document, reg: AsyncApiRegistry, m: MessageRef) -> bool {
    match m {
        MessageRef::External(r) => string_views(doc.asyncapi_aliases@).contains(r.alias@)
            && resolves(reg, r),
        MessageRef::Internal(p) => internal_resolves(doc, p@),
    }
}

/// Whether a message reference resolves.
pub fn message_resolves(doc: &Document, reg: &AsyncApiRegistry, m: &MessageRef) -> (b: bool)
    ensures
        b == message_ref_resolves(*doc, *reg, *m),
{
    match m {
        MessageRef::External(r) => list_contains(&doc.asyncapi_aliases, r.alias.as_str())
            && is_resolvable(reg, r),
        MessageRef::Internal(p) => internal_ok(doc, p.as_str()),
    }
}

} // verus!
