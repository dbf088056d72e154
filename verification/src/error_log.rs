//! Diagnostics: the scanner reports lexical errors as line-tagged records.
//!
//! Reporting never alters scanning: the scanner appends a record and keeps
//! going, so one pass always yields a complete token sequence. The host
//! decides what to do with the records (print, aggregate, or ignore).

use vstd::prelude::*;

verus! {

/// The mathematical value of a `Diag`.
pub ghost struct SpecDiag {
    pub line: nat,
    pub message: Seq<char>,
}

/// One reported lexical error: the 1-based line it was noticed on and a
/// free-form message.
#[derive(Clone, Debug, PartialEq)]
pub struct Diag {
    pub line: usize,
    pub message: String,
}

impl View for Diag {
    type V = SpecDiag;

    open spec fn view(&self) -> SpecDiag {
        SpecDiag { line: self.line as nat, message: self.message@ }
    }
}

/// Builds the error record for a lexical error at `line`.
pub fn error(line: usize, message: &str) -> (d: Diag)
    ensures
        d@ == (SpecDiag { line: line as nat, message: message@ }),
{
    Diag { line, message: message.to_owned() }
}

/// The views of a diagnostic list, in order.
pub open spec fn diags_view(v: Seq<Diag>) -> Seq<SpecDiag> {
    v.map_values(|d: Diag| d@)
}

/// Appending a diagnostic appends its view.
pub proof fn lemma_diags_view_push(v: Seq<Diag>, d: Diag)
    ensures
        diags_view(v.push(d)) == diags_view(v).push(d@),
{
    assert(diags_view(v.push(d)) =~= diags_view(v).push(d@));
}

} // verus!
