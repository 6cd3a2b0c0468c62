//! The record of installed supplement plugins: where a plugin may be
//! fetched from, the file it is stored under, and how installing and
//! removing one changes the list of installed plugins.
//!
//! Reading and writing the list, and fetching and storing plugin files, is
//! the caller's part.

use vstd::prelude::*;
use crate::text::{cat3, has_prefix, owned, same, starts_with};

verus! {

/// One installed plugin.
#[derive(Debug, Clone)]
pub struct PluginManifestEntry {
    pub id: String,
    pub version: String,
    /// Where it was installed from, as given.
    pub source: String,
    /// Its file, relative to the plugin directory.
    pub file: String,
    pub installed_at: String,
}

pub struct EntryView {
    pub id: Seq<char>,
    pub version: Seq<char>,
    pub source: Seq<char>,
    pub file: Seq<char>,
    pub installed_at: Seq<char>,
}

impl View for PluginManifestEntry {
    type V = EntryView;

    open spec fn view(&self) -> EntryView {
        EntryView {
            id: self.id@,
            version: self.version@,
            source: self.source@,
            file: self.file@,
            installed_at: self.installed_at@,
        }
    }
}

pub open spec fn entry_views(es: Seq<PluginManifestEntry>) -> Seq<EntryView> {
    es.map_values(|e: PluginManifestEntry| e@)
}

/// `es` without the entries for plugin `id`, the others in order.
pub open spec fn without(es: Seq<EntryView>, id: Seq<char>) -> Seq<EntryView>
    decreases es.len(),
{
    if es.len() == 0 {
        es
    } else {
        let rest = without(es.drop_last(), id);
        if es.last().id == id {
            rest
        } else {
            rest.push(es.last())
        }
    }
}

/// The list after installing `e`: any earlier entry for its id gives way,
/// and `e` comes last.
pub open spec fn installed(es: Seq<EntryView>, e: EntryView) -> Seq<EntryView> {
    without(es, e.id).push(e)
}

/// The position of the first entry for `id`, or `es.len()` when there is
/// none.
pub open spec fn entry_position(es: Seq<EntryView>, id: Seq<char>) -> int
    decreases es.len(),
{
    if es.len() == 0 {
        0
    } else if es[0].id == id {
        0
    } else {
        1 + entry_position(es.drop_first(), id)
    }
}

pub proof fn lemma_entry_position(es: Seq<EntryView>, id: Seq<char>)
    ensures
        0 <= entry_position(es, id) <= es.len(),
        entry_position(es, id) < es.len() ==> es[entry_position(es, id)].id == id,
        forall|j: int| 0 <= j < entry_position(es, id) ==> es[j].id != id,
    decreases es.len(),
{
    if es.len() > 0 && es[0].id != id {
        lemma_entry_position(es.drop_first(), id);
        assert forall|j: int| 0 <= j < entry_position(es, id) implies es[j].id != id by {
            if j > 0 {
                assert(es[j] == es.drop_first()[j - 1]);
            }
        }
    }
}

/// The error for removing a plugin that is not installed.
pub open spec fn not_installed_message(id: Seq<char>) -> Seq<char> {
    "no installed plugin with id '"@ + id + "'"@
}

/// Where a plugin is fetched from.
#[derive(Debug, Clone, Copy, PartialEq, Eq, Structural)]
pub enum PluginSource {
    /// Downloaded over `https://`.
    Https,
    /// Read from a local file.
    LocalFile,
}

pub open spec fn http_refusal() -> Seq<char> {
    "only https:// URLs are accepted (a supplement plugin is executable code; fetching it over plain http is not supported)"@
}

/// How `source` is fetched: `https://` URLs are downloaded, `http://` URLs
/// are refused (a plugin is executable code), anything else is a file.
pub open spec fn source_kind(source: Seq<char>) -> Result<PluginSource, Seq<char>> {
    if starts_with(source, "https://"@) {
        Ok(PluginSource::Https)
    } else if starts_with(source, "http://"@) {
        Err(http_refusal())
    } else {
        Ok(PluginSource::LocalFile)
    }
}

pub fn plugin_source(source: &str) -> (r: Result<PluginSource, String>)
    ensures
        match (r, source_kind(source@)) {
            (Ok(k), Ok(j)) => k == j,
            (Err(m), Err(n)) => m@ == n,
            _ => false,
        },
{
    if has_prefix(source, "https://") {
        Ok(PluginSource::Https)
    } else if has_prefix(source, "http://") {
        Err(
            owned(
                "only https:// URLs are accepted (a supplement plugin is executable code; fetching it over plain http is not supported)",
            ),
        )
    } else {
        Ok(PluginSource::LocalFile)
    }
}

pub open spec fn path_safe(c: char) -> char {
    if c == '/' || c == '\\' || c == ':' {
        '_'
    } else {
        c
    }
}

/// The file a plugin with id `id` is stored under: the id with every `/`,
/// `\` and `:` replaced by `_`, then `.wasm`.
pub open spec fn plugin_file(id: Seq<char>) -> Seq<char> {
    id.map_values(|c: char| path_safe(c)) + ".wasm"@
}

pub fn plugin_file_name(id: &str) -> (r: String)
    ensures
        r@ == plugin_file(id@),
{
    let n = id.unicode_len();
    let mut r = String::new();
    let mut i: usize = 0;
    while i < n
        invariant
            n == id@.len(),
            i <= n,
            r@ == id@.take(i as int).map_values(|c: char| path_safe(c)),
        decreases n - i,
    {
        let c = id.get_char(i);
        let ghost before = r@;
        if c == '/' || c == '\\' || c == ':' {
            r.append("_");
            proof {
                reveal_strlit("_");
            }
            assert(r@ =~= before.push('_'));
        } else {
            let one = id.substring_char(i, i + 1);
            assert(one@ =~= seq![c]);
            r.append(one);
            assert(r@ =~= before.push(c));
        }
        assert(id@.take(i as int + 1) =~= id@.take(i as int).push(c));
        assert(id@.take(i as int + 1).map_values(|c: char| path_safe(c)) =~= before.push(path_safe(c)));
        i = i + 1;
    }
    assert(id@.take(n as int) =~= id@);
    r.append(".wasm");
    r
}

fn copy_entry(e: &PluginManifestEntry) -> (c: PluginManifestEntry)
    ensures
        c@ == e@,
{
    PluginManifestEntry {
        id: owned(e.id.as_str()),
        version: owned(e.version.as_str()),
        source: owned(e.source.as_str()),
        file: owned(e.file.as_str()),
        installed_at: owned(e.installed_at.as_str()),
    }
}

/// Record `entry` as installed: an earlier entry for the same plugin id is
/// dropped, the others keep their order, and `entry` comes last.
pub fn install_entry(entries: &mut Vec<PluginManifestEntry>, entry: PluginManifestEntry)
    ensures
        entry_views(final(entries)@) == installed(entry_views(old(entries)@), entry@),
{
    let ghost old_views = entry_views(entries@);
    let mut kept: Vec<PluginManifestEntry> = Vec::new();
    let mut i: usize = 0;
    assert(entry_views(entries@).take(0) =~= Seq::<EntryView>::empty());
    assert(entry_views(kept@) =~= Seq::<EntryView>::empty());
    while i < entries.len()
        invariant
            i <= entries@.len(),
            old_views == entry_views(entries@),
            entry_views(kept@) == without(old_views.take(i as int), entry.id@),
        decreases entries.len() - i,
    {
        let e = &entries[i];
        let ghost prefix = old_views.take(i as int + 1);
        assert(prefix.drop_last() =~= old_views.take(i as int));
        assert(prefix.last() == e@);
        if !same(e.id.as_str(), entry.id.as_str()) {
            let c = copy_entry(e);
            kept.push(c);
            assert(entry_views(kept@) =~= without(old_views.take(i as int), entry.id@).push(e@));
        }
        i = i + 1;
    }
    assert(old_views.take(old_views.len() as int) =~= old_views);
    let ghost kept_views = entry_views(kept@);
    kept.push(entry);
    assert(entry_views(kept@) =~= kept_views.push(entry@));
    *entries = kept;
}

/// Remove the entry for plugin `id` (the first, should there be several)
/// and return it; when none is installed, the list is left as it is and
/// the error says so.
pub fn remove_entry(entries: &mut Vec<PluginManifestEntry>, id: &str) -> (r: Result<PluginManifestEntry, String>)
    ensures
        ({
            let es = entry_views(old(entries)@);
            let k = entry_position(es, id@);
            match r {
                Ok(e) => k < es.len() && e@ == es[k] && entry_views(final(entries)@) == es.remove(k),
                Err(m) => k == es.len() && m@ == not_installed_message(id@) && final(entries)@
                    == old(entries)@,
            }
        }),
{
    let ghost es = entry_views(entries@);
    proof {
        lemma_entry_position(es, id@);
    }
    let mut i: usize = 0;
    while i < entries.len()
        invariant
            i <= entries@.len(),
            es == entry_views(entries@),
            entries@ == old(entries)@,
            forall|j: int| 0 <= j < i ==> es[j].id != id@,
        decreases entries.len() - i,
    {
        if same(entries[i].id.as_str(), id) {
            proof {
                lemma_entry_position(es, id@);
                assert(es[i as int] == entries@[i as int]@);
                assert(entry_position(es, id@) == i) by {
                    if entry_position(es, id@) < i {
                        assert(es[entry_position(es, id@)].id != id@);
                    }
                    if entry_position(es, id@) > i {
                        assert(es[i as int].id == id@);
                    }
                }
            }
            let e = entries.remove(i);
            assert(entry_views(entries@) =~= es.remove(i as int));
            return Ok(e);
        }
        i = i + 1;
    }
    proof {
        if entry_position(es, id@) < es.len() {
            assert(es[entry_position(es, id@)].id == id@);
        }
    }
    Err(cat3("no installed plugin with id '", id, "'"))
}

} // verus!
