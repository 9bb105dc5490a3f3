//! The command model and its textual codec.
//!
//! A command line is one head word followed by a tail. The head picks the
//! variant case-insensitively; unknown heads fall back to [`Cmd::Custom`]
//! with the head kept verbatim. Formatting is the inverse mapping, and
//! [`lemma_cmd_round_trip`] proves `parse(format(c)) == c` for every command
//! whose fields a line can carry.

use vstd::prelude::*;
use vstd::string::*;
use crate::term::{task_canon, NarseseTask};
use crate::text::{
    all_blank, chars_to_string, dec_str, dec_val, find_blank, first_blank, fmt_usize, fold_up,
    is_all_blank, is_blank, is_dec, is_digit, lemma_dec_str, lemma_first_blank, lemma_first_blank_at,
    lemma_tokens_prefix,
    lemma_tokens_single, matches_nocase, eq_nocase, parse_usize, str_to_chars, tokenize,
    tokens_of,
};

verus! {

/// A protocol command.
#[derive(Debug, Clone, PartialEq, Eq, Hash)]
pub enum Cmd {
    /// Save a target (memory, state) to a path.
    SAV { target: String, path: String },
    /// Load a target from a path.
    LOA { target: String, path: String },
    /// Reset a target.
    RES { target: String },
    /// Feed one narsese task to the backend.
    NSE(NarseseTask),
    /// Create a new reasoner.
    NEW { target: String },
    /// Delete (stop) a reasoner.
    DEL { target: String },
    /// Run a number of inference cycles.
    CYC(usize),
    /// Set the output volume.
    VOL(usize),
    /// Register an operator, named without its leading marker.
    REG { name: String },
    /// Ask the backend to print some information.
    INF { source: String },
    /// Ask for help on a name.
    HLP { name: String },
    /// A remark; carried but not interpreted.
    REM { comment: String },
    /// Ask the backend to exit, with a reason.
    EXI { reason: String },
    /// Any unrecognized head, kept verbatim with the unsplit tail.
    Custom { head: String, tail: String },
}

/// The spec-level shape of a command.
pub enum CmdV {
    SAV { target: Seq<char>, path: Seq<char> },
    LOA { target: Seq<char>, path: Seq<char> },
    RES { target: Seq<char> },
    NSE(Seq<char>),
    NEW { target: Seq<char> },
    DEL { target: Seq<char> },
    CYC(usize),
    VOL(usize),
    REG { name: Seq<char> },
    INF { source: Seq<char> },
    HLP { name: Seq<char> },
    REM { comment: Seq<char> },
    EXI { reason: Seq<char> },
    Custom { head: Seq<char>, tail: Seq<char> },
}

impl View for Cmd {
    type V = CmdV;

    open spec fn view(&self) -> CmdV {
        match self {
            Cmd::SAV { target, path } => CmdV::SAV { target: target@, path: path@ },
            Cmd::LOA { target, path } => CmdV::LOA { target: target@, path: path@ },
            Cmd::RES { target } => CmdV::RES { target: target@ },
            Cmd::NSE(task) => CmdV::NSE(task@),
            Cmd::NEW { target } => CmdV::NEW { target: target@ },
            Cmd::DEL { target } => CmdV::DEL { target: target@ },
            Cmd::CYC(n) => CmdV::CYC(*n),
            Cmd::VOL(n) => CmdV::VOL(*n),
            Cmd::REG { name } => CmdV::REG { name: name@ },
            Cmd::INF { source } => CmdV::INF { source: source@ },
            Cmd::HLP { name } => CmdV::HLP { name: name@ },
            Cmd::REM { comment } => CmdV::REM { comment: comment@ },
            Cmd::EXI { reason } => CmdV::EXI { reason: reason@ },
            Cmd::Custom { head, tail } => CmdV::Custom { head: head@, tail: tail@ },
        }
    }
}

/// What went wrong while parsing a command line.
#[derive(Debug, Clone, Copy, PartialEq, Eq, Structural)]
pub enum ParseErrorKind {
    /// The line was empty or all whitespace.
    EmptyInput,
    /// Strict parameter extraction found fewer tokens than required.
    InsufficientParams { needed: usize },
    /// A numeric argument was not a decimal numeral fitting the type.
    NumericParse,
    /// The term library rejected embedded term text.
    TermParse,
    /// Any other cause, described by the message alone.
    Other,
}

/// A command parse error: a kind and a human-readable message.
#[derive(Debug, Clone, PartialEq, Eq)]
pub struct ParseError {
    pub kind: ParseErrorKind,
    pub message: String,
}

impl ParseError {
    /// An error with only a message.
    pub fn new(s: &str) -> (r: ParseError)
        ensures
            r.kind == ParseErrorKind::Other,
            r.message@ == s@,
    {
        ParseError { kind: ParseErrorKind::Other, message: s.to_owned() }
    }
}

/// Wraps a foreign error message as a [`ParseError`].
pub fn to_parse_error(message: String) -> (r: ParseError)
    ensures
        r.kind == ParseErrorKind::Other,
        r.message == message,
{
    ParseError { kind: ParseErrorKind::Other, message }
}

/// The result of parsing.
pub type ParseResult<T> = Result<T, ParseError>;

/// Exactly `n` tokens taken from the front, or the number that was needed.
pub open spec fn strict_params(s: Seq<char>, n: int) -> Result<Seq<Seq<char>>, ParseErrorKind> {
    if tokens_of(s).len() < n {
        Err(ParseErrorKind::InsufficientParams { needed: n as usize })
    } else {
        Ok(tokens_of(s).take(n))
    }
}

/// `n` tokens taken from the front, missing ones defaulting to empty.
pub open spec fn loose_params(s: Seq<char>, n: int) -> Seq<Seq<char>> {
    Seq::new(
        n as nat,
        |i: int|
            if i < tokens_of(s).len() {
                tokens_of(s)[i]
            } else {
                Seq::empty()
            },
    )
}

/// A decimal token as a `usize`, or the numeric-parse error.
pub open spec fn parse_num(t: Seq<char>) -> Result<usize, ParseErrorKind> {
    if is_dec(t) && dec_val(t) <= usize::MAX {
        Ok(dec_val(t) as usize)
    } else {
        Err(ParseErrorKind::NumericParse)
    }
}

/// Whether a head matches one of the built-in command tags,
/// case-insensitively.
pub open spec fn is_builtin_head(h: Seq<char>) -> bool {
    ||| matches_nocase(h, "SAV"@)
    ||| matches_nocase(h, "LOA"@)
    ||| matches_nocase(h, "RES"@)
    ||| matches_nocase(h, "NSE"@)
    ||| matches_nocase(h, "NEW"@)
    ||| matches_nocase(h, "DEL"@)
    ||| matches_nocase(h, "CYC"@)
    ||| matches_nocase(h, "VOL"@)
    ||| matches_nocase(h, "REG"@)
    ||| matches_nocase(h, "INF"@)
    ||| matches_nocase(h, "HLP"@)
    ||| matches_nocase(h, "REM"@)
    ||| matches_nocase(h, "EXI"@)
}

/// Dispatch on an already split head and tail.
pub open spec fn parse_head_params(h: Seq<char>, rest: Seq<char>) -> Result<
    CmdV,
    ParseErrorKind,
> {
    if matches_nocase(h, "SAV"@) {
        Ok(CmdV::SAV { target: loose_params(rest, 2)[0], path: loose_params(rest, 2)[1] })
    } else if matches_nocase(h, "LOA"@) {
        Ok(CmdV::LOA { target: loose_params(rest, 2)[0], path: loose_params(rest, 2)[1] })
    } else if matches_nocase(h, "RES"@) {
        Ok(CmdV::RES { target: loose_params(rest, 1)[0] })
    } else if matches_nocase(h, "NSE"@) {
        match task_canon(rest) {
            Some(t) => Ok(CmdV::NSE(t)),
            None => Err(ParseErrorKind::TermParse),
        }
    } else if matches_nocase(h, "NEW"@) {
        match strict_params(rest, 1) {
            Ok(ps) => Ok(CmdV::NEW { target: ps[0] }),
            Err(k) => Err(k),
        }
    } else if matches_nocase(h, "DEL"@) {
        match strict_params(rest, 1) {
            Ok(ps) => Ok(CmdV::DEL { target: ps[0] }),
            Err(k) => Err(k),
        }
    } else if matches_nocase(h, "CYC"@) {
        match strict_params(rest, 1) {
            Ok(ps) => match parse_num(ps[0]) {
                Ok(n) => Ok(CmdV::CYC(n)),
                Err(k) => Err(k),
            },
            Err(k) => Err(k),
        }
    } else if matches_nocase(h, "VOL"@) {
        match strict_params(rest, 1) {
            Ok(ps) => match parse_num(ps[0]) {
                Ok(n) => Ok(CmdV::VOL(n)),
                Err(k) => Err(k),
            },
            Err(k) => Err(k),
        }
    } else if matches_nocase(h, "REG"@) {
        match strict_params(rest, 1) {
            Ok(ps) => Ok(CmdV::REG { name: ps[0] }),
            Err(k) => Err(k),
        }
    } else if matches_nocase(h, "INF"@) {
        Ok(CmdV::INF { source: loose_params(rest, 1)[0] })
    } else if matches_nocase(h, "HLP"@) {
        Ok(CmdV::HLP { name: loose_params(rest, 1)[0] })
    } else if matches_nocase(h, "REM"@) {
        Ok(CmdV::REM { comment: rest })
    } else if matches_nocase(h, "EXI"@) {
        Ok(CmdV::EXI { reason: rest })
    } else {
        Ok(CmdV::Custom { head: h, tail: rest })
    }
}

/// Parsing one whole line: empty check, head split, dispatch.
pub open spec fn parse_cmd(s: Seq<char>) -> Result<CmdV, ParseErrorKind> {
    if all_blank(s) {
        Err(ParseErrorKind::EmptyInput)
    } else {
        if first_blank(s) == s.len() {
            parse_head_params(s, Seq::empty())
        } else {
            parse_head_params(s.take(first_blank(s)), s.skip(first_blank(s) + 1))
        }
    }
}

/// The head word a command formats to.
pub open spec fn head_text(c: CmdV) -> Seq<char> {
    match c {
        CmdV::SAV { .. } => "SAV"@,
        CmdV::LOA { .. } => "LOA"@,
        CmdV::RES { .. } => "RES"@,
        CmdV::NSE(..) => "NSE"@,
        CmdV::NEW { .. } => "NEW"@,
        CmdV::DEL { .. } => "DEL"@,
        CmdV::CYC(..) => "CYC"@,
        CmdV::VOL(..) => "VOL"@,
        CmdV::REG { .. } => "REG"@,
        CmdV::INF { .. } => "INF"@,
        CmdV::HLP { .. } => "HLP"@,
        CmdV::REM { .. } => "REM"@,
        CmdV::EXI { .. } => "EXI"@,
        CmdV::Custom { head, .. } => head,
    }
}

/// The tail a command formats to.
pub open spec fn tail_text(c: CmdV) -> Seq<char> {
    match c {
        CmdV::SAV { target, path } => target + seq![' '] + path,
        CmdV::LOA { target, path } => target + seq![' '] + path,
        CmdV::RES { target } => target,
        CmdV::NSE(t) => t,
        CmdV::NEW { target } => target,
        CmdV::DEL { target } => target,
        CmdV::CYC(n) => dec_str(n as int),
        CmdV::VOL(n) => dec_str(n as int),
        CmdV::REG { name } => name,
        CmdV::INF { source } => source,
        CmdV::HLP { name } => name,
        CmdV::REM { comment } => comment,
        CmdV::EXI { reason } => reason,
        CmdV::Custom { tail, .. } => tail,
    }
}

/// The full line a command formats to: head, one space, tail.
pub open spec fn cmd_text(c: CmdV) -> Seq<char> {
    head_text(c) + seq![' '] + tail_text(c)
}

impl Cmd {
    /// The command's head word; the stored head for [`Cmd::Custom`].
    pub fn head(&self) -> (r: &str)
        ensures
            r@ == head_text(self@),
    {
        match self {
            Cmd::SAV { .. } => "SAV",
            Cmd::LOA { .. } => "LOA",
            Cmd::RES { .. } => "RES",
            Cmd::NSE(..) => "NSE",
            Cmd::NEW { .. } => "NEW",
            Cmd::DEL { .. } => "DEL",
            Cmd::CYC(..) => "CYC",
            Cmd::VOL(..) => "VOL",
            Cmd::REG { .. } => "REG",
            Cmd::INF { .. } => "INF",
            Cmd::HLP { .. } => "HLP",
            Cmd::REM { .. } => "REM",
            Cmd::EXI { .. } => "EXI",
            Cmd::Custom { head, .. } => head.as_str(),
        }
    }

    /// The command's tail text, reconstructed from its fields.
    pub fn tail(&self) -> (r: String)
        ensures
            r@ == tail_text(self@),
    {
        match self {
            Cmd::SAV { target, path } | Cmd::LOA { target, path } => {
                let mut s = target.clone();
                s.push(' ');
                s.append(path.as_str());
                s
            },
            Cmd::RES { target } | Cmd::NEW { target } | Cmd::DEL { target } => target.clone(),
            Cmd::NSE(task) => task.text().to_owned(),
            Cmd::CYC(n) | Cmd::VOL(n) => {
                let digits = fmt_usize(*n);
                chars_to_string(&digits, 0, digits.len())
            },
            Cmd::REG { name } | Cmd::HLP { name } => name.clone(),
            Cmd::INF { source } => source.clone(),
            Cmd::REM { comment } => comment.clone(),
            Cmd::EXI { reason } => reason.clone(),
            Cmd::Custom { tail, .. } => tail.clone(),
        }
    }

    /// The full command line: head, one space, tail.
    pub fn to_text(&self) -> (r: String)
        ensures
            r@ == cmd_text(self@),
    {
        let mut s = self.head().to_owned();
        s.push(' ');
        let tail = self.tail();
        s.append(tail.as_str());
        s
    }
}

/// Takes exactly `n` whitespace-separated tokens from `s`; fewer is the
/// insufficient-parameters error, extra tokens are ignored.
pub fn get_cmd_params(s: &str, n: usize) -> (r: ParseResult<Vec<String>>)
    ensures
        r matches Ok(ps) ==> strict_params(s@, n as int) == Ok::<Seq<Seq<char>>, ParseErrorKind>(
            ps.deep_view(),
        ) && ps@.len() == n,
        r matches Err(e) ==> strict_params(s@, n as int) == Err::<Seq<Seq<char>>, ParseErrorKind>(
            e.kind,
        ),
{
    let chars = str_to_chars(s);
    let ts = tokenize(&chars);
    if ts.len() < n {
        let mut message = "not enough command parameters: needed ".to_owned();
        let digits = fmt_usize(n);
        let num = chars_to_string(&digits, 0, digits.len());
        message.append(num.as_str());
        return Err(ParseError { kind: ParseErrorKind::InsufficientParams { needed: n }, message });
    }
    let mut ps: Vec<String> = Vec::new();
    let mut i: usize = 0;
    while i < n
        invariant
            0 <= i <= n <= ts@.len(),
            ps.deep_view() =~= ts.deep_view().take(i as int),
        decreases n - i,
    {
        let ghost old_ps = ps.deep_view();
        ps.push(ts[i].clone());
        proof {
            assert(ps.deep_view() =~= old_ps.push(ts@[i as int]@));
            assert(ps.deep_view() =~= ts.deep_view().take(i + 1));
        }
        i = i + 1;
    }
    Ok(ps)
}

/// Takes `n` whitespace-separated tokens from `s`, missing ones defaulting
/// to the empty string; never fails.
pub fn get_cmd_params_loose(s: &str, n: usize) -> (r: ParseResult<Vec<String>>)
    ensures
        r matches Ok(ps) ==> ps.deep_view() == loose_params(s@, n as int) && ps@.len() == n,
        r is Ok,
{
    let chars = str_to_chars(s);
    let ts = tokenize(&chars);
    let mut ps: Vec<String> = Vec::new();
    let mut i: usize = 0;
    while i < n
        invariant
            0 <= i <= n,
            ts.deep_view() == tokens_of(s@),
            ps.deep_view() =~= loose_params(s@, n as int).take(i as int),
        decreases n - i,
    {
        let ghost old_ps = ps.deep_view();
        if i < ts.len() {
            ps.push(ts[i].clone());
            proof {
                assert(ps.deep_view() =~= old_ps.push(ts@[i as int]@));
            }
        } else {
            ps.push(String::new());
            proof {
                assert(ps.deep_view() =~= old_ps.push(Seq::<char>::empty()));
            }
        }
        proof {
            assert(ps.deep_view() =~= loose_params(s@, n as int).take(i + 1));
        }
        i = i + 1;
    }
    proof {
        assert(loose_params(s@, n as int).take(n as int) =~= loose_params(s@, n as int));
    }
    Ok(ps)
}

impl Cmd {
    /// Parses a command from its head and the rest of the line.
    pub fn parse_str_params(head: &str, line: &str) -> (r: ParseResult<Cmd>)
        ensures
            r matches Ok(c) ==> parse_head_params(head@, line@) == Ok::<CmdV, ParseErrorKind>(c@),
            r matches Err(e) ==> parse_head_params(head@, line@) == Err::<CmdV, ParseErrorKind>(
                e.kind,
            ),
    {
        let hv = str_to_chars(head);
        let upto = hv.len();
        proof {
            assert(hv@.take(upto as int) =~= head@);
        }
        if eq_nocase(&hv, upto, "SAV") {
            let ps = get_cmd_params_loose(line, 2)?;
            let mut it = ps;
            let path = it.pop().unwrap();
            let target = it.pop().unwrap();
            proof {
                assert(target@ == loose_params(line@, 2)[0]);
                assert(path@ == loose_params(line@, 2)[1]);
            }
            Ok(Cmd::SAV { target, path })
        } else if eq_nocase(&hv, upto, "LOA") {
            let ps = get_cmd_params_loose(line, 2)?;
            let mut it = ps;
            let path = it.pop().unwrap();
            let target = it.pop().unwrap();
            Ok(Cmd::LOA { target, path })
        } else if eq_nocase(&hv, upto, "RES") {
            let ps = get_cmd_params_loose(line, 1)?;
            let mut it = ps;
            let target = it.pop().unwrap();
            Ok(Cmd::RES { target })
        } else if eq_nocase(&hv, upto, "NSE") {
            match NarseseTask::parse(line) {
                Ok(task) => Ok(Cmd::NSE(task)),
                Err(message) => Err(ParseError { kind: ParseErrorKind::TermParse, message }),
            }
        } else if eq_nocase(&hv, upto, "NEW") {
            let ps = get_cmd_params(line, 1)?;
            let mut it = ps;
            let target = it.pop().unwrap();
            Ok(Cmd::NEW { target })
        } else if eq_nocase(&hv, upto, "DEL") {
            let ps = get_cmd_params(line, 1)?;
            let mut it = ps;
            let target = it.pop().unwrap();
            Ok(Cmd::DEL { target })
        } else if eq_nocase(&hv, upto, "CYC") {
            let ps = get_cmd_params(line, 1)?;
            let n = Self::parse_count(&ps[0])?;
            Ok(Cmd::CYC(n))
        } else if eq_nocase(&hv, upto, "VOL") {
            let ps = get_cmd_params(line, 1)?;
            let n = Self::parse_count(&ps[0])?;
            Ok(Cmd::VOL(n))
        } else if eq_nocase(&hv, upto, "REG") {
            let ps = get_cmd_params(line, 1)?;
            let mut it = ps;
            let name = it.pop().unwrap();
            Ok(Cmd::REG { name })
        } else if eq_nocase(&hv, upto, "INF") {
            let ps = get_cmd_params_loose(line, 1)?;
            let mut it = ps;
            let source = it.pop().unwrap();
            Ok(Cmd::INF { source })
        } else if eq_nocase(&hv, upto, "HLP") {
            let ps = get_cmd_params_loose(line, 1)?;
            let mut it = ps;
            let name = it.pop().unwrap();
            Ok(Cmd::HLP { name })
        } else if eq_nocase(&hv, upto, "REM") {
            Ok(Cmd::REM { comment: line.to_owned() })
        } else if eq_nocase(&hv, upto, "EXI") {
            Ok(Cmd::EXI { reason: line.to_owned() })
        } else {
            Ok(Cmd::Custom { head: head.to_owned(), tail: line.to_owned() })
        }
    }

    /// Reads a strict numeric token; a non-numeral or an oversized value is
    /// the numeric-parse error.
    fn parse_count(token: &String) -> (r: ParseResult<usize>)
        ensures
            r matches Ok(n) ==> parse_num(token@) == Ok::<usize, ParseErrorKind>(n),
            r matches Err(e) ==> parse_num(token@) == Err::<usize, ParseErrorKind>(e.kind),
    {
        let tv = str_to_chars(token.as_str());
        proof {
            assert(tv@.subrange(0, tv@.len() as int) =~= token@);
        }
        match parse_usize(&tv, 0, tv.len()) {
            Some(n) => Ok(n),
            None => {
                let mut message = "not an unsigned integer: ".to_owned();
                message.append(token.as_str());
                Err(ParseError { kind: ParseErrorKind::NumericParse, message })
            },
        }
    }

    /// Parses one command line: an all-whitespace line is the empty-input
    /// error; otherwise the line splits at the first whitespace character
    /// into head and tail.
    pub fn parse(line: &str) -> (r: ParseResult<Cmd>)
        ensures
            r matches Ok(c) ==> parse_cmd(line@) == Ok::<CmdV, ParseErrorKind>(c@),
            r matches Err(e) ==> parse_cmd(line@) == Err::<CmdV, ParseErrorKind>(e.kind),
    {
        let v = str_to_chars(line);
        if is_all_blank(&v) {
            return Err(
                ParseError {
                    kind: ParseErrorKind::EmptyInput,
                    message: "cannot parse an empty line".to_owned(),
                },
            );
        }
        let f = find_blank(&v);
        proof {
            lemma_first_blank(v@);
        }
        if f == v.len() {
            proof {
                reveal_strlit("");
                assert(""@ =~= Seq::<char>::empty());
            }
            Self::parse_str_params(line, "")
        } else {
            let head = chars_to_string(&v, 0, f);
            let rest = chars_to_string(&v, f + 1, v.len());
            proof {
                assert(head@ =~= line@.take(first_blank(line@)));
                assert(rest@ =~= line@.skip(first_blank(line@) + 1));
            }
            Self::parse_str_params(head.as_str(), rest.as_str())
        }
    }
}


/// The characters of the built-in command tags.
proof fn lemma_tags()
    ensures
        "SAV"@ =~= seq!['S', 'A', 'V'],
        "LOA"@ =~= seq!['L', 'O', 'A'],
        "RES"@ =~= seq!['R', 'E', 'S'],
        "NSE"@ =~= seq!['N', 'S', 'E'],
        "NEW"@ =~= seq!['N', 'E', 'W'],
        "DEL"@ =~= seq!['D', 'E', 'L'],
        "CYC"@ =~= seq!['C', 'Y', 'C'],
        "VOL"@ =~= seq!['V', 'O', 'L'],
        "REG"@ =~= seq!['R', 'E', 'G'],
        "INF"@ =~= seq!['I', 'N', 'F'],
        "HLP"@ =~= seq!['H', 'L', 'P'],
        "REM"@ =~= seq!['R', 'E', 'M'],
        "EXI"@ =~= seq!['E', 'X', 'I'],
{
    reveal_strlit("SAV");
    reveal_strlit("LOA");
    reveal_strlit("RES");
    reveal_strlit("NSE");
    reveal_strlit("NEW");
    reveal_strlit("DEL");
    reveal_strlit("CYC");
    reveal_strlit("VOL");
    reveal_strlit("REG");
    reveal_strlit("INF");
    reveal_strlit("HLP");
    reveal_strlit("REM");
    reveal_strlit("EXI");
}

/// Whether a text is free of whitespace, so that token splitting carries it
/// through a line unchanged.
pub open spec fn plain_token(t: Seq<char>) -> bool {
    forall|i: int| 0 <= i < t.len() ==> !is_blank(t[i])
}

/// Splitting a formatted line recovers its head and tail.
proof fn lemma_head_split(h: Seq<char>, t: Seq<char>)
    requires
        h.len() > 0,
        plain_token(h),
    ensures
        parse_cmd(h + seq![' '] + t) == parse_head_params(h, t),
{
    let s = h + seq![' '] + t;
    assert(s[0] == h[0]);
    assert(!all_blank(s));
    assert forall|i: int| 0 <= i < h.len() implies !is_blank(s[i]) by {
        assert(s[i] == h[i]);
    }
    assert(s[h.len() as int] == ' ');
    lemma_first_blank_at(s, h.len() as int);
    assert(s.take(h.len() as int) =~= h);
    assert(s.skip(h.len() as int + 1) =~= t);
}

/// The tokens of a formatted two-parameter tail.
proof fn lemma_loose2(target: Seq<char>, path: Seq<char>)
    requires
        plain_token(target),
        plain_token(path),
        target.len() > 0 || path.len() == 0,
    ensures
        loose_params(target + seq![' '] + path, 2)[0] == target,
        loose_params(target + seq![' '] + path, 2)[1] == path,
{
    let t = target + seq![' '] + path;
    if target.len() > 0 {
        let b = seq![' '] + path;
        assert(t =~= target + b);
        lemma_tokens_prefix(target, b);
        assert(b.skip(1) =~= path);
        assert(tokens_of(b) == tokens_of(path));
        if path.len() > 0 {
            lemma_tokens_single(path);
            assert(tokens_of(t)[0] == target);
            assert(tokens_of(t)[1] == path);
            assert(tokens_of(t).len() == 2);
        } else {
            assert(tokens_of(path) =~= Seq::<Seq<char>>::empty());
            assert(tokens_of(t).len() == 1);
            assert(tokens_of(t)[0] == target);
        }
    } else {
        assert(t =~= seq![' ']);
        assert(is_blank(t[0]));
        assert(t.skip(1) =~= Seq::<char>::empty());
        assert(tokens_of(t) == tokens_of(t.skip(1)));
        assert(tokens_of(Seq::<char>::empty()) =~= Seq::<Seq<char>>::empty());
        assert(tokens_of(t).len() == 0);
        assert(target =~= Seq::<char>::empty());
        assert(path =~= Seq::<char>::empty());
    }
}

/// The one token of a loose single-parameter tail.
proof fn lemma_loose1(x: Seq<char>)
    requires
        plain_token(x),
    ensures
        loose_params(x, 1)[0] == x,
{
    if x.len() > 0 {
        lemma_tokens_single(x);
    } else {
        assert(x =~= Seq::<char>::empty());
        assert(tokens_of(x).len() == 0);
    }
}

/// The one token of a strict single-parameter tail.
proof fn lemma_strict1(x: Seq<char>)
    requires
        plain_token(x),
        x.len() > 0,
    ensures
        tokens_of(x).len() == 1,
        tokens_of(x).take(1) =~= Seq::<Seq<char>>::empty().push(x),
{
    lemma_tokens_single(x);
}

/// A decimal numeral is one whitespace-free token denoting its number.
proof fn lemma_dec_token(n: int)
    requires
        n >= 0,
    ensures
        is_dec(dec_str(n)),
        dec_val(dec_str(n)) == n,
        plain_token(dec_str(n)),
        dec_str(n).len() > 0,
{
    lemma_dec_str(n);
    assert forall|i: int| 0 <= i < dec_str(n).len() implies !is_blank(dec_str(n)[i]) by {
        assert(is_digit(dec_str(n)[i]));
    }
}

/// The commands whose fields a formatted line can carry back: tokens free of
/// whitespace, strict parameters nonempty, no empty parameter before a
/// nonempty one, a custom head that is nonempty and not a built-in tag, and
/// no term payload (whether a term round trips is the term library's
/// affair, not this codec's).
pub open spec fn round_trippable(c: CmdV) -> bool {
    match c {
        CmdV::SAV { target, path } => plain_token(target) && plain_token(path) && (target.len()
            > 0 || path.len() == 0),
        CmdV::LOA { target, path } => plain_token(target) && plain_token(path) && (target.len()
            > 0 || path.len() == 0),
        CmdV::RES { target } => plain_token(target),
        CmdV::NSE(_) => false,
        CmdV::NEW { target } => plain_token(target) && target.len() > 0,
        CmdV::DEL { target } => plain_token(target) && target.len() > 0,
        CmdV::CYC(_) => true,
        CmdV::VOL(_) => true,
        CmdV::REG { name } => plain_token(name) && name.len() > 0,
        CmdV::INF { source } => plain_token(source),
        CmdV::HLP { name } => plain_token(name),
        CmdV::REM { .. } => true,
        CmdV::EXI { .. } => true,
        CmdV::Custom { head, .. } => head.len() > 0 && plain_token(head) && !is_builtin_head(
            head,
        ),
    }
}

/// Round trip: parsing the formatted text of any round-trippable command
/// yields the command back.
pub proof fn lemma_cmd_round_trip(c: CmdV)
    requires
        round_trippable(c),
    ensures
        parse_cmd(cmd_text(c)) == Ok::<CmdV, ParseErrorKind>(c),
{
    lemma_tags();
    match c {
        CmdV::SAV { target, path } => {
            assert(matches_nocase("SAV"@, "SAV"@));
            lemma_head_split("SAV"@, tail_text(c));
            lemma_loose2(target, path);
        },
        CmdV::LOA { target, path } => {
            assert(fold_up("LOA"@[0]) != "SAV"@[0] as int);
            assert(!matches_nocase("LOA"@, "SAV"@));
            assert(matches_nocase("LOA"@, "LOA"@));
            lemma_head_split("LOA"@, tail_text(c));
            lemma_loose2(target, path);
        },
        CmdV::RES { target } => {
            assert(fold_up("RES"@[0]) != "SAV"@[0] as int);
            assert(!matches_nocase("RES"@, "SAV"@));
            assert(fold_up("RES"@[0]) != "LOA"@[0] as int);
            assert(!matches_nocase("RES"@, "LOA"@));
            assert(matches_nocase("RES"@, "RES"@));
            lemma_head_split("RES"@, tail_text(c));
            lemma_loose1(target);
        },
        CmdV::NSE(_) => {
            assert(false);
        },
        CmdV::NEW { target } => {
            assert(fold_up("NEW"@[0]) != "SAV"@[0] as int);
            assert(!matches_nocase("NEW"@, "SAV"@));
            assert(fold_up("NEW"@[0]) != "LOA"@[0] as int);
            assert(!matches_nocase("NEW"@, "LOA"@));
            assert(fold_up("NEW"@[0]) != "RES"@[0] as int);
            assert(!matches_nocase("NEW"@, "RES"@));
            assert(fold_up("NEW"@[1]) != "NSE"@[1] as int);
            assert(!matches_nocase("NEW"@, "NSE"@));
            assert(matches_nocase("NEW"@, "NEW"@));
            lemma_head_split("NEW"@, tail_text(c));
            lemma_strict1(target);
        },
        CmdV::DEL { target } => {
            assert(fold_up("DEL"@[0]) != "SAV"@[0] as int);
            assert(!matches_nocase("DEL"@, "SAV"@));
            assert(fold_up("DEL"@[0]) != "LOA"@[0] as int);
            assert(!matches_nocase("DEL"@, "LOA"@));
            assert(fold_up("DEL"@[0]) != "RES"@[0] as int);
            assert(!matches_nocase("DEL"@, "RES"@));
            assert(fold_up("DEL"@[0]) != "NSE"@[0] as int);
            assert(!matches_nocase("DEL"@, "NSE"@));
            assert(fold_up("DEL"@[0]) != "NEW"@[0] as int);
            assert(!matches_nocase("DEL"@, "NEW"@));
            assert(matches_nocase("DEL"@, "DEL"@));
            lemma_head_split("DEL"@, tail_text(c));
            lemma_strict1(target);
        },
        CmdV::CYC(n) => {
            assert(fold_up("CYC"@[0]) != "SAV"@[0] as int);
            assert(!matches_nocase("CYC"@, "SAV"@));
            assert(fold_up("CYC"@[0]) != "LOA"@[0] as int);
            assert(!matches_nocase("CYC"@, "LOA"@));
            assert(fold_up("CYC"@[0]) != "RES"@[0] as int);
            assert(!matches_nocase("CYC"@, "RES"@));
            assert(fold_up("CYC"@[0]) != "NSE"@[0] as int);
            assert(!matches_nocase("CYC"@, "NSE"@));
            assert(fold_up("CYC"@[0]) != "NEW"@[0] as int);
            assert(!matches_nocase("CYC"@, "NEW"@));
            assert(fold_up("CYC"@[0]) != "DEL"@[0] as int);
            assert(!matches_nocase("CYC"@, "DEL"@));
            assert(matches_nocase("CYC"@, "CYC"@));
            lemma_dec_token(n as int);
            lemma_head_split("CYC"@, tail_text(c));
            lemma_strict1(dec_str(n as int));
            assert(parse_num(dec_str(n as int)) == Ok::<usize, ParseErrorKind>(n));
        },
        CmdV::VOL(n) => {
            assert(fold_up("VOL"@[0]) != "SAV"@[0] as int);
            assert(!matches_nocase("VOL"@, "SAV"@));
            assert(fold_up("VOL"@[0]) != "LOA"@[0] as int);
            assert(!matches_nocase("VOL"@, "LOA"@));
            assert(fold_up("VOL"@[0]) != "RES"@[0] as int);
            assert(!matches_nocase("VOL"@, "RES"@));
            assert(fold_up("VOL"@[0]) != "NSE"@[0] as int);
            assert(!matches_nocase("VOL"@, "NSE"@));
            assert(fold_up("VOL"@[0]) != "NEW"@[0] as int);
            assert(!matches_nocase("VOL"@, "NEW"@));
            assert(fold_up("VOL"@[0]) != "DEL"@[0] as int);
            assert(!matches_nocase("VOL"@, "DEL"@));
            assert(fold_up("VOL"@[0]) != "CYC"@[0] as int);
            assert(!matches_nocase("VOL"@, "CYC"@));
            assert(matches_nocase("VOL"@, "VOL"@));
            lemma_dec_token(n as int);
            lemma_head_split("VOL"@, tail_text(c));
            lemma_strict1(dec_str(n as int));
            assert(parse_num(dec_str(n as int)) == Ok::<usize, ParseErrorKind>(n));
        },
        CmdV::REG { name } => {
            assert(fold_up("REG"@[0]) != "SAV"@[0] as int);
            assert(!matches_nocase("REG"@, "SAV"@));
            assert(fold_up("REG"@[0]) != "LOA"@[0] as int);
            assert(!matches_nocase("REG"@, "LOA"@));
            assert(fold_up("REG"@[2]) != "RES"@[2] as int);
            assert(!matches_nocase("REG"@, "RES"@));
            assert(fold_up("REG"@[0]) != "NSE"@[0] as int);
            assert(!matches_nocase("REG"@, "NSE"@));
            assert(fold_up("REG"@[0]) != "NEW"@[0] as int);
            assert(!matches_nocase("REG"@, "NEW"@));
            assert(fold_up("REG"@[0]) != "DEL"@[0] as int);
            assert(!matches_nocase("REG"@, "DEL"@));
            assert(fold_up("REG"@[0]) != "CYC"@[0] as int);
            assert(!matches_nocase("REG"@, "CYC"@));
            assert(fold_up("REG"@[0]) != "VOL"@[0] as int);
            assert(!matches_nocase("REG"@, "VOL"@));
            assert(matches_nocase("REG"@, "REG"@));
            lemma_head_split("REG"@, tail_text(c));
            lemma_strict1(name);
        },
        CmdV::INF { source } => {
            assert(fold_up("INF"@[0]) != "SAV"@[0] as int);
            assert(!matches_nocase("INF"@, "SAV"@));
            assert(fold_up("INF"@[0]) != "LOA"@[0] as int);
            assert(!matches_nocase("INF"@, "LOA"@));
            assert(fold_up("INF"@[0]) != "RES"@[0] as int);
            assert(!matches_nocase("INF"@, "RES"@));
            assert(fold_up("INF"@[0]) != "NSE"@[0] as int);
            assert(!matches_nocase("INF"@, "NSE"@));
            assert(fold_up("INF"@[0]) != "NEW"@[0] as int);
            assert(!matches_nocase("INF"@, "NEW"@));
            assert(fold_up("INF"@[0]) != "DEL"@[0] as int);
            assert(!matches_nocase("INF"@, "DEL"@));
            assert(fold_up("INF"@[0]) != "CYC"@[0] as int);
            assert(!matches_nocase("INF"@, "CYC"@));
            assert(fold_up("INF"@[0]) != "VOL"@[0] as int);
            assert(!matches_nocase("INF"@, "VOL"@));
            assert(fold_up("INF"@[0]) != "REG"@[0] as int);
            assert(!matches_nocase("INF"@, "REG"@));
            assert(matches_nocase("INF"@, "INF"@));
            lemma_head_split("INF"@, tail_text(c));
            lemma_loose1(source);
        },
        CmdV::HLP { name } => {
            assert(fold_up("HLP"@[0]) != "SAV"@[0] as int);
            assert(!matches_nocase("HLP"@, "SAV"@));
            assert(fold_up("HLP"@[0]) != "LOA"@[0] as int);
            assert(!matches_nocase("HLP"@, "LOA"@));
            assert(fold_up("HLP"@[0]) != "RES"@[0] as int);
            assert(!matches_nocase("HLP"@, "RES"@));
            assert(fold_up("HLP"@[0]) != "NSE"@[0] as int);
            assert(!matches_nocase("HLP"@, "NSE"@));
            assert(fold_up("HLP"@[0]) != "NEW"@[0] as int);
            assert(!matches_nocase("HLP"@, "NEW"@));
            assert(fold_up("HLP"@[0]) != "DEL"@[0] as int);
            assert(!matches_nocase("HLP"@, "DEL"@));
            assert(fold_up("HLP"@[0]) != "CYC"@[0] as int);
            assert(!matches_nocase("HLP"@, "CYC"@));
            assert(fold_up("HLP"@[0]) != "VOL"@[0] as int);
            assert(!matches_nocase("HLP"@, "VOL"@));
            assert(fold_up("HLP"@[0]) != "REG"@[0] as int);
            assert(!matches_nocase("HLP"@, "REG"@));
            assert(fold_up("HLP"@[0]) != "INF"@[0] as int);
            assert(!matches_nocase("HLP"@, "INF"@));
            assert(matches_nocase("HLP"@, "HLP"@));
            lemma_head_split("HLP"@, tail_text(c));
            lemma_loose1(name);
        },
        CmdV::REM { comment } => {
            assert(fold_up("REM"@[0]) != "SAV"@[0] as int);
            assert(!matches_nocase("REM"@, "SAV"@));
            assert(fold_up("REM"@[0]) != "LOA"@[0] as int);
            assert(!matches_nocase("REM"@, "LOA"@));
            assert(fold_up("REM"@[2]) != "RES"@[2] as int);
            assert(!matches_nocase("REM"@, "RES"@));
            assert(fold_up("REM"@[0]) != "NSE"@[0] as int);
            assert(!matches_nocase("REM"@, "NSE"@));
            assert(fold_up("REM"@[0]) != "NEW"@[0] as int);
            assert(!matches_nocase("REM"@, "NEW"@));
            assert(fold_up("REM"@[0]) != "DEL"@[0] as int);
            assert(!matches_nocase("REM"@, "DEL"@));
            assert(fold_up("REM"@[0]) != "CYC"@[0] as int);
            assert(!matches_nocase("REM"@, "CYC"@));
            assert(fold_up("REM"@[0]) != "VOL"@[0] as int);
            assert(!matches_nocase("REM"@, "VOL"@));
            assert(fold_up("REM"@[2]) != "REG"@[2] as int);
            assert(!matches_nocase("REM"@, "REG"@));
            assert(fold_up("REM"@[0]) != "INF"@[0] as int);
            assert(!matches_nocase("REM"@, "INF"@));
            assert(fold_up("REM"@[0]) != "HLP"@[0] as int);
            assert(!matches_nocase("REM"@, "HLP"@));
            assert(matches_nocase("REM"@, "REM"@));
            lemma_head_split("REM"@, tail_text(c));
        },
        CmdV::EXI { reason } => {
            assert(fold_up("EXI"@[0]) != "SAV"@[0] as int);
            assert(!matches_nocase("EXI"@, "SAV"@));
            assert(fold_up("EXI"@[0]) != "LOA"@[0] as int);
            assert(!matches_nocase("EXI"@, "LOA"@));
            assert(fold_up("EXI"@[0]) != "RES"@[0] as int);
            assert(!matches_nocase("EXI"@, "RES"@));
            assert(fold_up("EXI"@[0]) != "NSE"@[0] as int);
            assert(!matches_nocase("EXI"@, "NSE"@));
            assert(fold_up("EXI"@[0]) != "NEW"@[0] as int);
            assert(!matches_nocase("EXI"@, "NEW"@));
            assert(fold_up("EXI"@[0]) != "DEL"@[0] as int);
            assert(!matches_nocase("EXI"@, "DEL"@));
            assert(fold_up("EXI"@[0]) != "CYC"@[0] as int);
            assert(!matches_nocase("EXI"@, "CYC"@));
            assert(fold_up("EXI"@[0]) != "VOL"@[0] as int);
            assert(!matches_nocase("EXI"@, "VOL"@));
            assert(fold_up("EXI"@[0]) != "REG"@[0] as int);
            assert(!matches_nocase("EXI"@, "REG"@));
            assert(fold_up("EXI"@[0]) != "INF"@[0] as int);
            assert(!matches_nocase("EXI"@, "INF"@));
            assert(fold_up("EXI"@[0]) != "HLP"@[0] as int);
            assert(!matches_nocase("EXI"@, "HLP"@));
            assert(fold_up("EXI"@[0]) != "REM"@[0] as int);
            assert(!matches_nocase("EXI"@, "REM"@));
            assert(matches_nocase("EXI"@, "EXI"@));
            lemma_head_split("EXI"@, tail_text(c));
        },
        CmdV::Custom { head, tail } => {
            lemma_head_split(head, tail_text(c));
        },
    }
}

/// Idempotent formatting: reparsing a formatted command and formatting again
/// reproduces the text.
pub proof fn lemma_format_idempotent(c: CmdV)
    requires
        round_trippable(c),
    ensures
        parse_cmd(cmd_text(c)) matches Ok(c2) && cmd_text(c2) == cmd_text(c),
{
    lemma_cmd_round_trip(c);
}

/// Two heads that agree up to ASCII letter case parse alike whenever the
/// head is a built-in tag (an unknown head is kept verbatim instead).
proof fn lemma_match_congr(h1: Seq<char>, h2: Seq<char>, tag: Seq<char>)
    requires
        h1.len() == h2.len(),
        forall|i: int| 0 <= i < h1.len() ==> fold_up(h1[i]) == fold_up(h2[i]),
    ensures
        matches_nocase(h1, tag) == matches_nocase(h2, tag),
{
}

/// Case-insensitive dispatch: two heads that agree up to ASCII letter case
/// pick the same built-in command.
pub proof fn lemma_head_case_insensitive(h1: Seq<char>, h2: Seq<char>, rest: Seq<char>)
    requires
        h1.len() == h2.len(),
        forall|i: int| 0 <= i < h1.len() ==> fold_up(h1[i]) == fold_up(h2[i]),
        is_builtin_head(h1),
    ensures
        parse_head_params(h1, rest) == parse_head_params(h2, rest),
{
    lemma_match_congr(h1, h2, "SAV"@);
    lemma_match_congr(h1, h2, "LOA"@);
    lemma_match_congr(h1, h2, "RES"@);
    lemma_match_congr(h1, h2, "NSE"@);
    lemma_match_congr(h1, h2, "NEW"@);
    lemma_match_congr(h1, h2, "DEL"@);
    lemma_match_congr(h1, h2, "CYC"@);
    lemma_match_congr(h1, h2, "VOL"@);
    lemma_match_congr(h1, h2, "REG"@);
    lemma_match_congr(h1, h2, "INF"@);
    lemma_match_congr(h1, h2, "HLP"@);
    lemma_match_congr(h1, h2, "REM"@);
    lemma_match_congr(h1, h2, "EXI"@);
}

} // verus!
