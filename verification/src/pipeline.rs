//! The validation sequence: library expansion, the document's own checks
//! and the tree-event supplement on the expanded document; then, only where
//! those found no error, reliability resolution; then, only where that
//! found none either, type checking of the branch conditions (where the
//! caller has their expressions and the message schemas to check them
//! against).

use vstd::prelude::*;
use crate::diagnostic::{any_error, has_error, views, Diagnostic, DiagnosticView};
use crate::expansion::{document_expanded, expanded_document};
use crate::libraries::{
    expand_libraries, libraries_resolved, splice_plan_of, splice_views, CatalogEntry, Splice,
};
use crate::model::{AsyncApiRegistry, Document};
use crate::reliability::{
    resolution_diags, reliability_id, resolve_reliability, trees_of, SourceLoad,
    UnknownProbabilityPolicy,
};
use crate::stdlib::LibraryError;
use crate::tree_event::{parse_and_validate_trees, trees_outcome, TreeManifest};
use crate::typeck::{condition_diags, type_check_conditions, MessageSchemas};
use crate::validate::{declares, document_diags, library_diags, validate_document, validate_libraries};

verus! {

/// The diagnostics of reliability resolution: none unless the document
/// declares the reliability supplement.
pub open spec fn reliability_stage(doc: Document, loads: Seq<SourceLoad>, policy: UnknownProbabilityPolicy) -> Seq<
    DiagnosticView,
> {
    if declares(doc, reliability_id()) {
        resolution_diags(doc, loads, policy)
    } else {
        Seq::empty()
    }
}

/// The diagnostics of the whole sequence, for the document `doc`, its
/// expansion `expanded` and the library errors `errors`.
pub open spec fn pipeline_diags(
    doc: Document,
    expanded: Document,
    errors: Seq<LibraryError>,
    registry: AsyncApiRegistry,
    trees: Option<TreeManifest>,
    loads: Seq<SourceLoad>,
    policy: UnknownProbabilityPolicy,
    schemas: Option<MessageSchemas>,
) -> Seq<DiagnosticView> {
    let first = library_diags(doc, errors) + document_diags(expanded, registry, Seq::empty())
        + trees_outcome(expanded, trees).1;
    if has_error(first) {
        first
    } else {
        let second = first + reliability_stage(expanded, loads, policy);
        match schemas {
            Some(sc) => if has_error(second) {
                second
            } else {
                second + condition_diags(expanded, registry, sc)
            },
            None => second,
        }
    }
}

/// `splices` holds, tree by tree, what each fault tree of `doc` takes in.
pub open spec fn plans_of(doc: Document, cat: Seq<CatalogEntry>, splices: Seq<Vec<Splice>>) -> bool {
    &&& splices.len() == trees_of(doc).len()
    &&& forall|k: int|
        0 <= k < splices.len() ==> splice_views(#[trigger] splices[k]@) == splice_plan_of(
            trees_of(doc)[k].tree,
            cat,
            libraries_resolved(doc, cat).resolved,
        )
}

/// Validate `doc`: resolve and expand its libraries from `cat` (reporting
/// each resolution error), run the document's own checks and the
/// tree-event supplement on the expanded document; where no error was
/// found, resolve its reliability sources from `loads`; where still none
/// was found, type-check its branch conditions against `schemas`. A caller
/// that does not hold the conditions' expressions passes no schemas, and
/// the sequence ends after reliability resolution. Returns the expanded
/// document with the diagnostics.
pub fn validate_with_libraries(
    doc: Document,
    cat: &Vec<CatalogEntry>,
    registry: &AsyncApiRegistry,
    trees: Option<TreeManifest>,
    loads: &Vec<SourceLoad>,
    policy: UnknownProbabilityPolicy,
    schemas: Option<&MessageSchemas>,
) -> (r: (Document, Vec<Diagnostic>))
    ensures
        exists|splices: Seq<Vec<Splice>>, errors: Seq<LibraryError>|
            {
                &&& plans_of(doc, cat@, splices)
                &&& document_expanded(doc, r.0, cat@, splices)
                &&& crate::libraries::error_views(errors) == libraries_resolved(doc, cat@).errors
                &&& views(r.1@) == pipeline_diags(
                    doc,
                    r.0,
                    errors,
                    *registry,
                    trees,
                    loads@,
                    policy,
                    match schemas {
                        Some(sc) => Some(*sc),
                        None => None,
                    },
                )
            },
{
    let ghost old_doc = doc;
    let mut diagnostics: Vec<Diagnostic> = Vec::new();
    let expansion = expand_libraries(&doc, cat);
    validate_libraries(&doc, &expansion.errors, &mut diagnostics);
    let ghost errors = expansion.errors@;
    let ghost splices = expansion.splices@;
    let expanded = expanded_document(doc, cat, &expansion.splices);
    validate_document(&expanded, registry, &mut diagnostics);
    let (_, tree_diags) = parse_and_validate_trees(&expanded, trees);
    let ghost d0 = views(diagnostics@);
    let mut tree_diags = tree_diags;
    diagnostics.append(&mut tree_diags);
    assert(views(diagnostics@) =~= d0 + trees_outcome(expanded, trees).1);
    let ghost first = views(diagnostics@);
    assert(first =~= library_diags(old_doc, errors) + document_diags(expanded, *registry, Seq::empty())
        + trees_outcome(expanded, trees).1);
    assert(plans_of(old_doc, cat@, splices));
    if any_error(&diagnostics) {
        return (expanded, diagnostics);
    }
    let _ = resolve_reliability(&expanded, loads, policy, &mut diagnostics);
    assert(views(diagnostics@) =~= first + reliability_stage(expanded, loads@, policy));
    match schemas {
        Some(sc) => {
            if any_error(&diagnostics) {
                return (expanded, diagnostics);
            }
            type_check_conditions(&expanded, registry, sc, &mut diagnostics);
        },
        None => {},
    }
    (expanded, diagnostics)
}

} // verus!
