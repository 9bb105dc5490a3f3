//! The output model: the closed set of observable backend events, and the
//! operation invocations some of them carry.
//!
//! Every variant exposes a stable uppercase type tag and one designated raw
//! content string; term-bearing variants may carry a narsese payload, and
//! [`Output::EXE`] carries an [`Operation`].

use vstd::prelude::*;
use crate::term::{term_ok, NarseseText, TermText};
use crate::text::str_eq;

verus! {

/// An operation invocation: an operator name (without the leading marker
/// character of the surface syntax) and its ordered term arguments.
#[derive(Debug, Clone, PartialEq, Eq, Hash)]
pub struct Operation {
    /// The operator's name, with no leading marker.
    pub operator_name: String,
    /// The parameter terms, in call order.
    pub params: Vec<TermText>,
}

/// The spec-level shape of an operation.
pub struct OperationV {
    pub operator_name: Seq<char>,
    pub params: Seq<Seq<char>>,
}

impl View for Operation {
    type V = OperationV;

    open spec fn view(&self) -> OperationV {
        OperationV { operator_name: self.operator_name@, params: self.params.deep_view() }
    }
}

impl Operation {
    /// Builds an operation from its name and already validated parameters.
    pub fn new(operator_name: &str, params: Vec<TermText>) -> (r: Operation)
        ensures
            r@.operator_name == operator_name@,
            r@.params == params.deep_view(),
    {
        Operation { operator_name: operator_name.to_owned(), params }
    }

    /// Builds an operation from parameter texts, each validated through the
    /// term library; fails exactly when some parameter is not a term.
    pub fn try_from_strings(operator_name: &str, params_str: &Vec<String>) -> (r: Result<
        Operation,
        String,
    >)
        ensures
            r matches Ok(op) ==> op@.operator_name == operator_name@ && op@.params
                == params_str.deep_view() && forall|i: int|
                0 <= i < params_str@.len() ==> term_ok(params_str.deep_view()[i]),
            r is Err <==> exists|i: int|
                0 <= i < params_str@.len() && !term_ok(params_str.deep_view()[i]),
    {
        let mut params: Vec<TermText> = Vec::new();
        let mut i: usize = 0;
        while i < params_str.len()
            invariant
                0 <= i <= params_str@.len(),
                params.deep_view() =~= params_str.deep_view().take(i as int),
                forall|k: int| 0 <= k < i ==> term_ok(params_str.deep_view()[k]),
            decreases params_str@.len() - i,
        {
            let ghost old_params = params.deep_view();
            match TermText::parse(params_str[i].as_str()) {
                Some(t) => {
                    params.push(t);
                    proof {
                        assert(params.deep_view() =~= old_params.push(
                            params_str.deep_view()[i as int],
                        ));
                        assert(params.deep_view() =~= params_str.deep_view().take(i + 1));
                    }
                },
                None => {
                    proof {
                        assert(!term_ok(params_str.deep_view()[i as int]));
                    }
                    return Err("operation parameter is not a term".to_owned());
                },
            }
            i = i + 1;
        }
        proof {
            assert(params.deep_view() =~= params_str.deep_view());
        }
        Ok(Operation { operator_name: operator_name.to_owned(), params })
    }

    /// Whether the operation has no parameters.
    pub fn no_params(&self) -> (r: bool)
        ensures
            r == (self@.params.len() == 0),
    {
        self.params.len() == 0
    }

    /// Whether the operation has parameters.
    pub fn has_params(&self) -> (r: bool)
        ensures
            r == (self@.params.len() > 0),
    {
        self.params.len() > 0
    }
}

/// The parameter part of an operation's surface form: a comma and a space
/// before each parameter term.
pub open spec fn op_params_text(ps: Seq<Seq<char>>) -> Seq<char>
    decreases ps.len(),
{
    if ps.len() == 0 {
        Seq::empty()
    } else {
        seq![',', ' '] + ps[0] + op_params_text(ps.skip(1))
    }
}

/// The surface form of an operation: the product-term statement
/// `<(*, p1, p2) --> ^name>`, with the operator marker that extraction
/// stripped restored in front of the name.
pub open spec fn operation_text(op: OperationV) -> Seq<char> {
    seq!['<', '(', '*'] + op_params_text(op.params) + seq![')', ' ', '-', '-', '>', ' ', '^']
        + op.operator_name + seq!['>']
}

/// One more parameter extends the parameter part at its end.
proof fn lemma_op_params_snoc(ps: Seq<Seq<char>>, p: Seq<char>)
    ensures
        op_params_text(ps.push(p)) == op_params_text(ps) + seq![',', ' '] + p,
    decreases ps.len(),
{
    if ps.len() == 0 {
        assert(ps.push(p)[0] == p);
        assert(ps.push(p).skip(1) =~= Seq::<Seq<char>>::empty());
        assert(op_params_text(ps.push(p).skip(1)) =~= Seq::<char>::empty());
        assert(op_params_text(ps) =~= Seq::<char>::empty());
        assert(op_params_text(ps.push(p)) =~= op_params_text(ps) + seq![',', ' '] + p);
    } else {
        assert(ps.push(p)[0] == ps[0]);
        assert(ps.push(p).skip(1) =~= ps.skip(1).push(p));
        lemma_op_params_snoc(ps.skip(1), p);
        assert(op_params_text(ps.push(p)) =~= op_params_text(ps) + seq![',', ' '] + p);
    }
}

impl Operation {
    /// Renders the operation in surface syntax, restoring the leading
    /// operator marker: `<(*, p1, p2) --> ^name>`.
    pub fn to_text(&self) -> (r: String)
        ensures
            r@ == operation_text(self@),
    {
        let mut s = "<(*".to_owned();
        proof {
            reveal_strlit("<(*");
            assert(s@ =~= seq!['<', '(', '*']);
            assert(self.params.deep_view().take(0) =~= Seq::<Seq<char>>::empty());
        }
        let mut i: usize = 0;
        while i < self.params.len()
            invariant
                0 <= i <= self.params@.len(),
                s@ == seq!['<', '(', '*'] + op_params_text(self.params.deep_view().take(i as int)),
            decreases self.params@.len() - i,
        {
            s.push(',');
            s.push(' ');
            s.append(self.params[i].text());
            proof {
                let ps = self.params.deep_view();
                assert(ps.take(i + 1) =~= ps.take(i as int).push(ps[i as int]));
                lemma_op_params_snoc(ps.take(i as int), ps[i as int]);
                assert(s@ =~= seq!['<', '(', '*'] + op_params_text(ps.take(i + 1)));
            }
            i = i + 1;
        }
        proof {
            assert(self.params.deep_view().take(self.params@.len() as int)
                =~= self.params.deep_view());
        }
        s.append(") --> ^");
        s.append(self.operator_name.as_str());
        s.push('>');
        proof {
            reveal_strlit(") --> ^");
            assert(") --> ^"@ =~= seq![')', ' ', '-', '-', '>', ' ', '^']);
            assert(s@ =~= operation_text(self@));
        }
        s
    }
}

/// One observable event from a backend.

#[derive(Debug, Clone, PartialEq, Eq, Hash)]
pub enum Output {
    /// Echo of an input, possibly with the echoed narsese.
    IN { content: String, narsese: Option<NarseseText> },
    /// A derived or general line, possibly with its narsese.
    OUT { content_raw: String, narsese: Option<NarseseText> },
    /// An internal backend error.
    ERROR { description: String },
    /// An answer to a question, possibly with its narsese.
    ANSWER { content_raw: String, narsese: Option<NarseseText> },
    /// A goal reported achieved, possibly with its narsese.
    ACHIEVED { content_raw: String, narsese: Option<NarseseText> },
    /// An operation invocation, with the line it was extracted from.
    EXE { content_raw: String, operation: Operation },
    /// An informational message.
    INFO { message: String },
    /// A comment, less important than information.
    COMMENT { content: String },
    /// An advisory note that the backend stopped; the authoritative state is
    /// the runtime's status, not this event.
    TERMINATED { description: String },
    /// A recognized but non-standard type, with its backend-supplied tag.
    UNCLASSIFIED { type_tag: String, content: String, narsese: Option<NarseseText> },
    /// Any other line.
    OTHER { content: String },
}

/// The spec-level shape of an output.
pub enum OutputV {
    IN { content: Seq<char>, narsese: Option<Seq<char>> },
    OUT { content_raw: Seq<char>, narsese: Option<Seq<char>> },
    ERROR { description: Seq<char> },
    ANSWER { content_raw: Seq<char>, narsese: Option<Seq<char>> },
    ACHIEVED { content_raw: Seq<char>, narsese: Option<Seq<char>> },
    EXE { content_raw: Seq<char>, operation: OperationV },
    INFO { message: Seq<char> },
    COMMENT { content: Seq<char> },
    TERMINATED { description: Seq<char> },
    UNCLASSIFIED { type_tag: Seq<char>, content: Seq<char>, narsese: Option<Seq<char>> },
    OTHER { content: Seq<char> },
}

/// The view of an optional narsese payload.
pub open spec fn narsese_view(n: Option<NarseseText>) -> Option<Seq<char>> {
    match n {
        Some(t) => Some(t@),
        None => None,
    }
}

impl View for Output {
    type V = OutputV;

    open spec fn view(&self) -> OutputV {
        match self {
            Output::IN { content, narsese } => OutputV::IN {
                content: content@,
                narsese: narsese_view(*narsese),
            },
            Output::OUT { content_raw, narsese } => OutputV::OUT {
                content_raw: content_raw@,
                narsese: narsese_view(*narsese),
            },
            Output::ERROR { description } => OutputV::ERROR { description: description@ },
            Output::ANSWER { content_raw, narsese } => OutputV::ANSWER {
                content_raw: content_raw@,
                narsese: narsese_view(*narsese),
            },
            Output::ACHIEVED { content_raw, narsese } => OutputV::ACHIEVED {
                content_raw: content_raw@,
                narsese: narsese_view(*narsese),
            },
            Output::EXE { content_raw, operation } => OutputV::EXE {
                content_raw: content_raw@,
                operation: operation@,
            },
            Output::INFO { message } => OutputV::INFO { message: message@ },
            Output::COMMENT { content } => OutputV::COMMENT { content: content@ },
            Output::TERMINATED { description } => OutputV::TERMINATED {
                description: description@,
            },
            Output::UNCLASSIFIED { type_tag, content, narsese } => OutputV::UNCLASSIFIED {
                type_tag: type_tag@,
                content: content@,
                narsese: narsese_view(*narsese),
            },
            Output::OTHER { content } => OutputV::OTHER { content: content@ },
        }
    }
}

impl DeepView for Output {
    type V = OutputV;

    open spec fn deep_view(&self) -> OutputV {
        self.view()
    }
}

/// The type tag an output reports: the variant's fixed uppercase tag, or the
/// stored tag of an unclassified output.
pub open spec fn type_text(o: OutputV) -> Seq<char> {
    match o {
        OutputV::IN { .. } => "IN"@,
        OutputV::OUT { .. } => "OUT"@,
        OutputV::ERROR { .. } => "ERROR"@,
        OutputV::ANSWER { .. } => "ANSWER"@,
        OutputV::ACHIEVED { .. } => "ACHIEVED"@,
        OutputV::EXE { .. } => "EXE"@,
        OutputV::INFO { .. } => "INFO"@,
        OutputV::COMMENT { .. } => "COMMENT"@,
        OutputV::TERMINATED { .. } => "TERMINATED"@,
        OutputV::UNCLASSIFIED { type_tag, .. } => type_tag,
        OutputV::OTHER { .. } => "OTHER"@,
    }
}

/// The one designated raw content string of an output.
pub open spec fn content_text(o: OutputV) -> Seq<char> {
    match o {
        OutputV::IN { content, .. } => content,
        OutputV::OUT { content_raw, .. } => content_raw,
        OutputV::ERROR { description } => description,
        OutputV::ANSWER { content_raw, .. } => content_raw,
        OutputV::ACHIEVED { content_raw, .. } => content_raw,
        OutputV::EXE { content_raw, .. } => content_raw,
        OutputV::INFO { message } => message,
        OutputV::COMMENT { content } => content,
        OutputV::TERMINATED { description } => description,
        OutputV::UNCLASSIFIED { content, .. } => content,
        OutputV::OTHER { content } => content,
    }
}

/// The optional narsese payload of an output.
pub open spec fn narsese_text(o: OutputV) -> Option<Seq<char>> {
    match o {
        OutputV::IN { narsese, .. } => narsese,
        OutputV::OUT { narsese, .. } => narsese,
        OutputV::ANSWER { narsese, .. } => narsese,
        OutputV::ACHIEVED { narsese, .. } => narsese,
        OutputV::UNCLASSIFIED { narsese, .. } => narsese,
        _ => None,
    }
}

/// Whether `t` is one of the fixed type tags (every tag but an unclassified
/// output's own).
pub open spec fn is_fixed_type_tag(t: Seq<char>) -> bool {
    ||| t == "IN"@
    ||| t == "OUT"@
    ||| t == "ERROR"@
    ||| t == "ANSWER"@
    ||| t == "ACHIEVED"@
    ||| t == "EXE"@
    ||| t == "INFO"@
    ||| t == "COMMENT"@
    ||| t == "TERMINATED"@
    ||| t == "OTHER"@
}

impl Output {
    /// The output's type tag.
    pub fn type_tag(&self) -> (r: &str)
        ensures
            r@ == type_text(self@),
    {
        match self {
            Output::IN { .. } => "IN",
            Output::OUT { .. } => "OUT",
            Output::ERROR { .. } => "ERROR",
            Output::ANSWER { .. } => "ANSWER",
            Output::ACHIEVED { .. } => "ACHIEVED",
            Output::EXE { .. } => "EXE",
            Output::INFO { .. } => "INFO",
            Output::COMMENT { .. } => "COMMENT",
            Output::TERMINATED { .. } => "TERMINATED",
            Output::UNCLASSIFIED { type_tag, .. } => type_tag.as_str(),
            Output::OTHER { .. } => "OTHER",
        }
    }

    /// The output's type tag, under the uniform `get` spelling.
    pub fn get_type(&self) -> (r: &str)
        ensures
            r@ == type_text(self@),
    {
        self.type_tag()
    }

    /// The output's raw content.
    pub fn raw_content(&self) -> (r: &str)
        ensures
            r@ == content_text(self@),
    {
        match self {
            Output::IN { content, .. } => content.as_str(),
            Output::OUT { content_raw, .. } => content_raw.as_str(),
            Output::ERROR { description } => description.as_str(),
            Output::ANSWER { content_raw, .. } => content_raw.as_str(),
            Output::ACHIEVED { content_raw, .. } => content_raw.as_str(),
            Output::EXE { content_raw, .. } => content_raw.as_str(),
            Output::INFO { message } => message.as_str(),
            Output::COMMENT { content } => content.as_str(),
            Output::TERMINATED { description } => description.as_str(),
            Output::UNCLASSIFIED { content, .. } => content.as_str(),
            Output::OTHER { content } => content.as_str(),
        }
    }

    /// The output's raw content, under the uniform `get` spelling.
    pub fn get_content(&self) -> (r: &str)
        ensures
            r@ == content_text(self@),
    {
        self.raw_content()
    }

    /// Whether the output's type tag is the given one (tags are uppercase).
    pub fn is_type(&self, tag: &str) -> (r: bool)
        ensures
            r == (type_text(self@) == tag@),
    {
        str_eq(self.type_tag(), tag)
    }

    /// The output's narsese payload, when its variant carries one and it was
    /// stored.
    pub fn get_narsese(&self) -> (r: Option<&NarseseText>)
        ensures
            r matches Some(t) ==> narsese_text(self@) == Some(t@),
            r is None ==> narsese_text(self@) is None,
    {
        match self {
            Output::IN { narsese, .. } => narsese.as_ref(),
            Output::OUT { narsese, .. } => narsese.as_ref(),
            Output::ANSWER { narsese, .. } => narsese.as_ref(),
            Output::ACHIEVED { narsese, .. } => narsese.as_ref(),
            Output::UNCLASSIFIED { narsese, .. } => narsese.as_ref(),
            _ => None,
        }
    }

    /// The output's operation, present exactly on [`Output::EXE`].
    pub fn get_operation(&self) -> (r: Option<&Operation>)
        ensures
            r matches Some(op) ==> self@ matches OutputV::EXE { operation, .. } && operation
                == op@,
            r is None ==> !(self@ is EXE),
    {
        match self {
            Output::EXE { operation, .. } => Some(operation),
            _ => None,
        }
    }
}

} // verus!
