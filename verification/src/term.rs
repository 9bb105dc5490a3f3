//! The boundary to the structured-term library.
//!
//! The protocol treats term payloads as opaque: it only ever asks the term
//! library to parse term text (validating it and, for command input, yielding
//! the canonical display text of the resulting task) and otherwise carries
//! the text through unchanged. Each call into the library goes through a
//! trusted wrapper whose result is named by an uninterpreted spec function.

use vstd::prelude::*;
use narsese::api::CastToTask;
use narsese::conversion::string::impl_lexical::format_instances::FORMAT_ASCII;

verus! {

/// What the term library yields for a line of task text: the canonical
/// display text of the parsed task (the bare sentence form when the task
/// carries no budget), or nothing when the line is rejected.
pub uninterp spec fn task_canon(s: Seq<char>) -> Option<Seq<char>>;

/// Whether the term library accepts `s` as narsese text (a term, sentence or
/// task).
pub uninterp spec fn narsese_ok(s: Seq<char>) -> bool;

/// Whether the term library accepts `s` as the text of one single term.
pub uninterp spec fn term_ok(s: Seq<char>) -> bool;

/// Relies on `NarseseFormat::parse`, `NarseseValue::try_into_task_compatible`
/// and `NarseseFormat::format` of the narsese crate: parses task text,
/// coerces a bare sentence to a task with an empty budget, and renders the
/// canonical display text (the sentence alone when the budget is empty, so
/// that no degenerate empty-budget marker is emitted).
#[verifier::external_body]
fn parse_task_text(line: &str) -> (r: Result<String, String>)
    ensures
        r matches Ok(t) ==> task_canon(line@) == Some(t@),
        r is Err ==> task_canon(line@) is None,
{
    let narsese = match FORMAT_ASCII.parse(line) {
        Ok(n) => n,
        Err(e) => return Err(e.to_string()),
    };
    let task = match narsese.try_into_task_compatible() {
        Ok(t) => t,
        Err(e) => return Err(e.to_string()),
    };
    let text = if task.budget.is_empty() {
        FORMAT_ASCII.format(task.get_sentence())
    } else {
        FORMAT_ASCII.format(&task)
    };
    Ok(text)
}

/// Relies on `NarseseFormat::parse` of the narsese crate: whether the text is
/// well-formed narsese.
#[verifier::external_body]
fn check_narsese(s: &str) -> (r: bool)
    ensures
        r == narsese_ok(s@),
{
    FORMAT_ASCII.parse(s).is_ok()
}

/// Relies on `NarseseFormat::parse` and `NarseseValue::try_into_term` of the
/// narsese crate: whether the text is one well-formed term.
#[verifier::external_body]
fn check_term(s: &str) -> (r: bool)
    ensures
        r == term_ok(s@),
{
    match FORMAT_ASCII.parse(s) {
        Ok(n) => n.try_into_term().is_ok(),
        Err(_) => false,
    }
}

/// An opaque task payload, held as the canonical display text that the term
/// library rendered for it.
#[derive(Debug, PartialEq, Eq, Hash)]
pub struct NarseseTask {
    text: String,
}

impl View for NarseseTask {
    type V = Seq<char>;

    closed spec fn view(&self) -> Seq<char> {
        self.text@
    }
}

impl Clone for NarseseTask {
    fn clone(&self) -> (r: Self)
        ensures
            r == *self,
    {
        NarseseTask { text: self.text.clone() }
    }
}

impl NarseseTask {
    /// Parses task text through the term library; an accepted line yields
    /// the task under its canonical display text.
    pub fn parse(line: &str) -> (r: Result<NarseseTask, String>)
        ensures
            r matches Ok(t) ==> task_canon(line@) == Some(t@),
            r is Err <==> task_canon(line@) is None,
    {
        match parse_task_text(line) {
            Ok(text) => Ok(NarseseTask { text }),
            Err(e) => Err(e),
        }
    }

    /// The canonical display text of the task.
    pub fn text(&self) -> (r: &str)
        ensures
            r@ == self@,
    {
        self.text.as_str()
    }
}

/// A narsese payload (term, sentence or task text), validated by the term
/// library and held verbatim. Keeping the text as given, rather than
/// re-rendering it, is deliberate: the producer (a runtime reading backend
/// lines) supplies canonical text, and a payload carried unchanged is one
/// the JSON codec can provably hand back.
#[derive(Debug, PartialEq, Eq, Hash)]
pub struct NarseseText {
    text: String,
}

impl NarseseText {
    /// The payload text is always accepted by the term library.
    #[verifier::type_invariant]
    pub open spec fn wf(self) -> bool {
        narsese_ok(self@)
    }
}

impl View for NarseseText {
    type V = Seq<char>;

    closed spec fn view(&self) -> Seq<char> {
        self.text@
    }
}

impl Clone for NarseseText {
    fn clone(&self) -> (r: Self)
        ensures
            r == *self,
    {
        proof {
            use_type_invariant(self);
        }
        NarseseText { text: self.text.clone() }
    }
}

impl NarseseText {
    /// Validates narsese text through the term library and keeps it
    /// verbatim; `None` exactly when the library rejects it.
    pub fn parse(s: &str) -> (r: Option<NarseseText>)
        ensures
            r matches Some(t) ==> t@ == s@ && narsese_ok(s@),
            r is None <==> !narsese_ok(s@),
    {
        if check_narsese(s) {
            Some(NarseseText { text: s.to_owned() })
        } else {
            None
        }
    }

    /// The payload text.
    pub fn text(&self) -> (r: &str)
        ensures
            r@ == self@,
    {
        self.text.as_str()
    }
}

/// The text of one term, validated by the term library and held verbatim.
#[derive(Debug, PartialEq, Eq, Hash)]
pub struct TermText {
    text: String,
}

impl TermText {
    /// The text is always accepted by the term library as one term.
    #[verifier::type_invariant]
    pub open spec fn wf(self) -> bool {
        term_ok(self@)
    }
}

impl View for TermText {
    type V = Seq<char>;

    closed spec fn view(&self) -> Seq<char> {
        self.text@
    }
}

impl DeepView for TermText {
    type V = Seq<char>;

    open spec fn deep_view(&self) -> Seq<char> {
        self.view()
    }
}

impl Clone for TermText {
    fn clone(&self) -> (r: Self)
        ensures
            r == *self,
    {
        proof {
            use_type_invariant(self);
        }
        TermText { text: self.text.clone() }
    }
}

impl TermText {
    /// Validates term text through the term library and keeps it verbatim;
    /// `None` exactly when the library rejects it.
    pub fn parse(s: &str) -> (r: Option<TermText>)
        ensures
            r matches Some(t) ==> t@ == s@ && term_ok(s@),
            r is None <==> !term_ok(s@),
    {
        if check_term(s) {
            Some(TermText { text: s.to_owned() })
        } else {
            None
        }
    }

    /// The term text.
    pub fn text(&self) -> (r: &str)
        ensures
            r@ == self@,
    {
        self.text.as_str()
    }
}

} // verus!
