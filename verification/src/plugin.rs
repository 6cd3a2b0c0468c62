//! The host side of supplement plugins: the packed-pointer ABI, and how a
//! plugin's reply becomes diagnostics.

use vstd::prelude::*;
use crate::diagnostic::{
    error_view, warning_view, views, Diagnostic, DiagnosticSeverity, DiagnosticView,
};
use crate::text::{cat, cat3};

verus! {

/// Split a packed `ptr << 32 | len` word into `(ptr, len)`.
pub fn unpack(packed: u64) -> (r: (u32, u32))
    ensures
        r.0 == packed / 0x1_0000_0000,
        r.1 == packed % 0x1_0000_0000,
        packed == r.0 * 0x1_0000_0000 + r.1,
{
    let hi = packed >> 32u64;
    let lo = packed & 0xFFFF_FFFFu64;
    assert(hi == packed / 0x1_0000_0000) by (bit_vector)
        requires
            hi == packed >> 32u64,
    ;
    assert(lo == packed % 0x1_0000_0000) by (bit_vector)
        requires
            lo == packed & 0xFFFF_FFFFu64,
    ;
    (hi as u32, lo as u32)
}

/// The error that stands for any failure of plugin `id`.
pub open spec fn plugin_error_view(id: Seq<char>, message: Seq<char>) -> DiagnosticView {
    error_view("PLUGIN-ERROR"@, "supplement plugin '"@ + id + "' failed: "@ + message)
}

pub fn plugin_error(id: &str, message: &str) -> (d: Diagnostic)
    ensures
        d@ == plugin_error_view(id@, message@),
{
    Diagnostic::error("PLUGIN-ERROR", cat(cat3("supplement plugin '", id, "' failed: ").as_str(), message))
}

/// A diagnostic as a plugin reports it.
#[derive(Debug, Clone)]
pub struct PluginDiagnostic {
    pub code: String,
    pub severity: DiagnosticSeverity,
    pub message: String,
}

/// A plugin diagnostic, its message prefixed with `[<id>] `.
pub open spec fn relayed(id: Seq<char>, d: PluginDiagnostic) -> DiagnosticView {
    let m = "["@ + id + "] "@ + d.message@;
    match d.severity {
        DiagnosticSeverity::Error => error_view(d.code@, m),
        DiagnosticSeverity::Warning => warning_view(d.code@, m),
    }
}

/// What a plugin's `validate` call gave: the call failed (why), it returned
/// something that is not a list of diagnostics, or it returned the list.
pub enum PluginReply {
    Failed(String),
    Malformed,
    Diagnostics(Vec<PluginDiagnostic>),
}

pub open spec fn reply_diags(id: Seq<char>, r: PluginReply) -> Seq<DiagnosticView> {
    match r {
        PluginReply::Failed(e) => seq![plugin_error_view(id, e@)],
        PluginReply::Malformed => seq![
            plugin_error_view(
                id,
                "validate returned malformed JSON (expected an array of diagnostics)"@,
            ),
        ],
        PluginReply::Diagnostics(ds) => ds@.map_values(|d: PluginDiagnostic| relayed(id, d)),
    }
}

/// The diagnostics that a plugin's `validate` reply contributes: its own,
/// each tagged with the plugin id, or one PLUGIN-ERROR where the call failed
/// or the reply was malformed.
pub fn validate_reply(id: &str, reply: &PluginReply) -> (r: Vec<Diagnostic>)
    ensures
        views(r@) == reply_diags(id@, *reply),
{
    let mut out: Vec<Diagnostic> = Vec::new();
    match reply {
        PluginReply::Failed(e) => {
            out.push(plugin_error(id, e.as_str()));
        },
        PluginReply::Malformed => {
            out.push(
                plugin_error(
                    id,
                    "validate returned malformed JSON (expected an array of diagnostics)",
                ),
            );
        },
        PluginReply::Diagnostics(ds) => {
            let ghost f = |d: PluginDiagnostic| relayed(id@, d);
            let mut i: usize = 0;
            while i < ds.len()
                invariant
                    i <= ds@.len(),
                    f == (|d: PluginDiagnostic| relayed(id@, d)),
                    views(out@) == ds@.take(i as int).map_values(f),
                decreases ds.len() - i,
            {
                let d = &ds[i];
                let msg = cat3("[", id, "] ");
                let full = cat(msg.as_str(), d.message.as_str());
                let diag = match d.severity {
                    DiagnosticSeverity::Error => Diagnostic::error(d.code.as_str(), full),
                    DiagnosticSeverity::Warning => Diagnostic::warning(d.code.as_str(), full),
                };
                out.push(diag);
                assert(ds@.take(i as int + 1).map_values(f) =~= ds@.take(i as int).map_values(f).push(
                    f(*d),
                ));
                assert(views(out@) =~= ds@.take(i as int + 1).map_values(f));
                i = i + 1;
            }
            assert(ds@.take(ds@.len() as int) =~= ds@);
        },
    }
    proof {
        if !(reply is Diagnostics) {
            assert(views(out@) =~= reply_diags(id@, *reply));
        }
    }
    out
}

} // verus!
