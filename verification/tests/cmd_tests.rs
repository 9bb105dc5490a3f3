//! Tests for the command codec: construction, formatting, parsing, and the
//! round trip between them.

use navm::cmd::{get_cmd_params, get_cmd_params_loose, to_parse_error, Cmd, ParseError,
    ParseErrorKind};
use navm::term::NarseseTask;

/// The full variant set, one sample each.
fn samples() -> Vec<Cmd> {
    vec![
        Cmd::SAV { target: "target".into(), path: "path".into() },
        Cmd::LOA { target: "target".into(), path: "path".into() },
        Cmd::RES { target: "target".into() },
        Cmd::NSE(
            NarseseTask::parse("$0.5;0.5;0.5$ 这是一个测试任务. :|: %1.0;0.9%")
                .expect("task sample should parse"),
        ),
        Cmd::NEW { target: "target".into() },
        Cmd::DEL { target: "target".into() },
        Cmd::CYC(1),
        Cmd::VOL(1),
        Cmd::REG { name: "name".into() },
        Cmd::INF { source: "target".into() },
        Cmd::HLP { name: "name".into() },
        Cmd::REM { comment: "comment".into() },
        Cmd::EXI { reason: "reason".into() },
        Cmd::Custom { head: "HEAD".into(), tail: "tail".into() },
    ]
}

#[test]
fn test_construct() {
    let samples = samples();
    for sample in samples {
        println!("{:?}", sample);
    }
}

#[test]
fn test_format() {
    let samples = samples();
    for cmd in samples {
        println!("{}", cmd.to_text());
    }
}

#[test]
fn test_conversion() {
    let samples = samples();
    for cmd in samples {
        let cmd_str = cmd.to_text();
        let reconverted = Cmd::parse(&cmd_str).expect("the formatted command should reparse");
        let reformatted = reconverted.to_text();
        assert_eq!(cmd, reconverted);
        assert_eq!(cmd_str, reformatted);
    }
}

#[test]
fn test_split_ascii_whitespace() {
    let s = get_cmd_params("a b \tc", 3).unwrap();
    assert_eq!(s, vec!["a".to_string(), "b".to_string(), "c".to_string()]);
}

fn parse_lines(lines: &str) {
    for line in lines.lines().map(str::trim).filter(|line| !line.is_empty()) {
        let cmd = Cmd::parse(line).expect("the command line should parse");
        println!("{:?}", cmd);
    }
}

#[test]
fn test_parse() {
    parse_lines(
        "
        SAV target path
        LOA target path
        RES target
        NSE <(&&, <A --> $B>, <#C --> +1>) --> ^D>. :|: %1.0; 0.9%
        NEW reasoner
        DEL reasoner
        CYC 137
        VOL 0
        REG operator_name
        INF memory
        HLP self
        REM this is a comment or remark
        EXI reason of exit
        CUSTOM_HEAD tail
        ",
    )
}

#[test]
fn test_parse_no_tail() {
    parse_lines(
        "
        EXI
        REM the lines below exercise loose parsing

        SAV
        LOA
        SAV reasoner
        LOA reasoner
        SAV reasoner ./saves/reasoner
        LOA reasoner ./saves/reasoner
        RES
        RES resetted
        INF
        INF memory
        HLP
        HLP *
        ",
    )
}

#[test]
fn test_case_insensitive_head() {
    let expected = Cmd::SAV { target: "a".into(), path: "b".into() };
    assert_eq!(Cmd::parse("sav a b").unwrap(), expected);
    assert_eq!(Cmd::parse("SAV a b").unwrap(), expected);
    assert_eq!(Cmd::parse("Sav a b").unwrap(), expected);
}

#[test]
fn test_loose_defaulting() {
    assert_eq!(Cmd::parse("RES").unwrap(), Cmd::RES { target: "".into() });
    assert_eq!(Cmd::parse("SAV onlytarget").unwrap(), Cmd::SAV {
        target: "onlytarget".into(),
        path: "".into(),
    });
    let loose = get_cmd_params_loose("x", 2).unwrap();
    assert_eq!(loose, vec!["x".to_string(), "".to_string()]);
}

#[test]
fn test_strict_failure() {
    let missing = Cmd::parse("CYC").unwrap_err();
    assert_eq!(missing.kind, ParseErrorKind::InsufficientParams { needed: 1 });
    let not_numeric = Cmd::parse("CYC abc").unwrap_err();
    assert_eq!(not_numeric.kind, ParseErrorKind::NumericParse);
    assert_eq!(Cmd::parse("CYC 137").unwrap(), Cmd::CYC(137));
}

#[test]
fn test_numeric_overflow() {
    let too_big = Cmd::parse("CYC 99999999999999999999999999").unwrap_err();
    assert_eq!(too_big.kind, ParseErrorKind::NumericParse);
    let plus_sign = Cmd::parse("VOL +3").unwrap_err();
    assert_eq!(plus_sign.kind, ParseErrorKind::NumericParse);
}

#[test]
fn test_empty_line() {
    assert_eq!(Cmd::parse("").unwrap_err().kind, ParseErrorKind::EmptyInput);
    assert_eq!(Cmd::parse("   ").unwrap_err().kind, ParseErrorKind::EmptyInput);
}

#[test]
fn test_unknown_head() {
    let cmd = Cmd::parse("FOO bar baz").unwrap();
    assert_eq!(cmd, Cmd::Custom { head: "FOO".into(), tail: "bar baz".into() });
    assert_eq!(cmd.to_text(), "FOO bar baz");
}

#[test]
fn test_term_parse_error() {
    let bad = Cmd::parse("NSE").unwrap_err();
    assert_eq!(bad.kind, ParseErrorKind::TermParse);
}

#[test]
fn test_heads_and_tails() {
    let cyc = Cmd::CYC(5);
    assert_eq!(cyc.head(), "CYC");
    assert_eq!(cyc.tail(), "5");
    assert_eq!(cyc.to_text(), "CYC 5");
    let custom = Cmd::Custom { head: "foo".into(), tail: "x y".into() };
    assert_eq!(custom.head(), "foo");
    assert_eq!(custom.tail(), "x y");
    assert_eq!(custom.to_text(), "foo x y");
}

#[test]
fn test_parse_errors_carry_messages() {
    let e = ParseError::new("some words");
    assert_eq!(e.kind, ParseErrorKind::Other);
    assert_eq!(e.message, "some words");
    let w = to_parse_error("wrapped".to_string());
    assert_eq!(w.kind, ParseErrorKind::Other);
    assert_eq!(w.message, "wrapped");
}

#[test]
fn test_unicode_whitespace_splits() {
    // Any unicode white-space character separates head and tokens.
    let spaced = Cmd::parse("SAV\u{a0}a\u{3000}b").unwrap();
    assert_eq!(spaced, Cmd::parse("SAV a b").unwrap());
    assert_eq!(Cmd::parse("\u{2028}\u{a0}").unwrap_err().kind, ParseErrorKind::EmptyInput);
}

#[test]
fn test_nse_bare_sentence() {
    let cmd = Cmd::parse("NSE A.").unwrap();
    let text = cmd.to_text();
    assert!(text.starts_with("NSE "));
    let again = Cmd::parse(&text).unwrap();
    assert_eq!(cmd, again);
}
