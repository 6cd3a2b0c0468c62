//! `--target` names, as the command line reads them.

use vstd::prelude::*;
use crate::text::{split, trim, split_on, trimmed};

verus! {

/// The targets compiled into this build, `rust` first.
pub fn available_target_names() -> (v: Vec<&'static str>)
    ensures
        v@.map_values(|x: &str| x@) == seq!["rust"@],
{
    let v = vec!["rust"];
    assert(v@.map_values(|x: &str| x@) =~= seq!["rust"@]);
    v
}

/// The non-empty trimmed pieces of `parts`, in order.
pub open spec fn kept_names(parts: Seq<Seq<char>>) -> Seq<Seq<char>>
    decreases parts.len(),
{
    if parts.len() == 0 {
        Seq::empty()
    } else {
        let rest = kept_names(parts.drop_last());
        let t = trim(parts.last());
        if t.len() > 0 {
            rest.push(t)
        } else {
            rest
        }
    }
}

/// The target names of a `--target` value: split on commas, each piece
/// trimmed, empty pieces dropped (so `rust,,java,` names two targets).
pub fn split_target_names(target: &str) -> (names: Vec<&str>)
    ensures
        names@.map_values(|p: &str| p@) == kept_names(split(target@, ',')),
{
    let parts = split_on(target, ',');
    let ghost ps = parts@.map_values(|p: &str| p@);
    let mut names: Vec<&str> = Vec::new();
    let mut i: usize = 0;
    while i < parts.len()
        invariant
            i <= parts@.len(),
            ps == parts@.map_values(|p: &str| p@),
            names@.map_values(|p: &str| p@) == kept_names(ps.take(i as int)),
        decreases parts.len() - i,
    {
        let t = trimmed(parts[i]);
        assert(ps.take(i as int + 1).drop_last() =~= ps.take(i as int));
        assert(ps.take(i as int + 1).last() == parts@[i as int]@);
        if t.unicode_len() > 0 {
            names.push(t);
            assert(names@.map_values(|p: &str| p@) =~= kept_names(ps.take(i as int)).push(t@));
        }
        i = i + 1;
    }
    assert(ps.take(ps.len() as int) =~= ps);
    names
}

} // verus!
