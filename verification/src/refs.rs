//! Same-document references of the supplements: `#/eventTrees/<tree>/...`
//! and `#/faultTrees/<tree>/...` pointers.

use vstd::prelude::*;
use crate::model::{
    Document, EventTreeEntry, FaultTreeEntry, Node, NodeEntry, index_of, lemma_index_of,
    lemma_index_of_is, node_entry_ids, node_position,
};
use crate::text::{strip_all, strip_prefix, split, strip_all_prefix, strip_one_prefix, split_on, same};

verus! {

/// The `/`-separated parts of `r` after `prefix`, once leading `#`s are
/// dropped; `None` when `r` does not continue with `prefix`.
pub open spec fn pointer_parts(r: Seq<char>, prefix: Seq<char>) -> Option<Seq<Seq<char>>> {
    match strip_prefix(strip_all(r, "#"@), prefix) {
        Some(after) => Some(split(after, '/')),
        None => None,
    }
}

pub fn pointer_parts_of<'a>(r: &'a str, prefix: &str) -> (p: Option<Vec<&'a str>>)
    ensures
        match pointer_parts(r@, prefix@) {
            Some(ps) => p is Some && p->0@.map_values(|s: &str| s@) == ps,
            None => p is None,
        },
{
    proof {
        reveal_strlit("#");
    }
    let rest = strip_all_prefix(r, "#");
    match strip_one_prefix(rest, prefix) {
        Some(after) => Some(split_on(after, '/')),
        None => None,
    }
}

/// The names of the event trees.
pub open spec fn tree_names(doc: Document) -> Seq<Seq<char>> {
    doc.event_trees@.map_values(|e: EventTreeEntry| e.name@)
}

/// The node `node_id` of event tree `tree_id` (the first of each name).
pub open spec fn node_at(doc: Document, tree_id: Seq<char>, node_id: Seq<char>) -> Option<Node> {
    let ti = index_of(tree_names(doc), tree_id);
    if ti < doc.event_trees@.len() {
        let ns = doc.event_trees@[ti].tree.nodes@;
        let ni = index_of(node_entry_ids(ns), node_id);
        if ni < ns.len() {
            Some(ns[ni].node)
        } else {
            None
        }
    } else {
        None
    }
}

/// The node a `#/eventTrees/<tree>/nodes/<node>` reference names.
pub open spec fn node_target(doc: Document, r: Seq<char>) -> Option<Node> {
    match pointer_parts(r, "/eventTrees/"@) {
        Some(p) => if p.len() == 3 && p[1] == "nodes"@ && p[0].len() > 0 && p[2].len() > 0 {
            node_at(doc, p[0], p[2])
        } else {
            None
        },
        None => None,
    }
}

/// The position of the first event tree named `name`, or their number.
pub fn tree_position(doc: &Document, name: &str) -> (r: usize)
    ensures
        r == index_of(tree_names(*doc), name@),
{
    let ghost ids = tree_names(*doc);
    let mut i: usize = 0;
    while i < doc.event_trees.len()
        invariant
            i <= doc.event_trees@.len(),
            ids == tree_names(*doc),
            forall|j: int| 0 <= j < i ==> ids[j] != name@,
        decreases doc.event_trees.len() - i,
    {
        if same(doc.event_trees[i].name.as_str(), name) {
            proof {
                lemma_index_of_is(ids, name@, i as int);
            }
            return i;
        }
        i = i + 1;
    }
    proof {
        lemma_index_of_is(ids, name@, i as int);
    }
    i
}

pub fn find_node_at<'a>(doc: &'a Document, tree_id: &str, node_id: &str) -> (r: Option<&'a Node>)
    ensures
        match node_at(*doc, tree_id@, node_id@) {
            Some(n) => r is Some && *r->0 == n,
            None => r is None,
        },
{
    let ti = tree_position(doc, tree_id);
    if ti >= doc.event_trees.len() {
        return None;
    }
    let ns = &doc.event_trees[ti].tree.nodes;
    let ni = node_position(ns, node_id);
    if ni >= ns.len() {
        return None;
    }
    Some(&ns[ni].node)
}

/// The node a `#/eventTrees/<tree>/nodes/<node>` reference names.
pub fn node_target_of<'a>(doc: &'a Document, r: &str) -> (n: Option<&'a Node>)
    ensures
        match node_target(*doc, r@) {
            Some(x) => n is Some && *n->0 == x,
            None => n is None,
        },
{
    match pointer_parts_of(r, "/eventTrees/") {
        Some(p) => {
            let ghost pv = p@.map_values(|s: &str| s@);
            if p.len() == 3 {
                assert(pv[1] == p@[1]@ && pv[0] == p@[0]@ && pv[2] == p@[2]@);
                if same(p[1], "nodes") && p[0].unicode_len() > 0 && p[2].unicode_len() > 0 {
                    return find_node_at(doc, p[0], p[2]);
                }
            }
            None
        },
        None => None,
    }
}

} // verus!
