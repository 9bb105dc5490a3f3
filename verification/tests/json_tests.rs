//! Tests for the output model and its JSON codec: round trips one by one and
//! as arrays, exact encodings, flexible decoding, and each decode error.

use navm::conversion::{OutputDecodeError, OutputJSON};
use navm::output::{Operation, Output};
use navm::term::{NarseseText, TermText};

fn narsese(s: &str) -> Option<NarseseText> {
    Some(NarseseText::parse(s).expect("the narsese sample should parse"))
}

/// One sample per output variant.
fn test_samples() -> Vec<Output> {
    vec![
        Output::IN { content: "in".into(), narsese: narsese("<in --> out>") },
        Output::OUT { content_raw: "out".into(), narsese: narsese("<A --> C>.") },
        Output::ERROR { description: "err".into() },
        Output::ANSWER { content_raw: "answer".into(), narsese: narsese("<A --> B>.") },
        Output::ACHIEVED { content_raw: "achieved".into(), narsese: narsese("G.") },
        Output::EXE {
            content_raw: "EXE: ^left({SELF})".into(),
            operation: Operation::try_from_strings("left", &vec!["{SELF}".to_string()])
                .expect("the operation sample should parse"),
        },
        Output::INFO { message: "info".into() },
        Output::COMMENT { content: "comment".into() },
        Output::TERMINATED { description: "terminated".into() },
        Output::UNCLASSIFIED {
            type_tag: "UNCLASSIFIED".into(),
            content: "unclassified".into(),
            narsese: narsese("<A --> B>."),
        },
        Output::OTHER { content: "other".into() },
    ]
}

#[test]
fn test_json_struct() {
    let samples = test_samples();
    for output in &samples {
        let json = output.to_json_struct();
        println!("{:?}", json);
        let re_converted =
            Output::try_from_json_struct(json).expect("the record should fold back");
        assert_eq!(*output, re_converted);
    }
}

#[test]
fn test_json_str() {
    let samples = test_samples();
    for output in &samples {
        let json_str = output.to_json_string();
        println!("{}", json_str);
        let re_converted =
            Output::try_from_json_string(&json_str).expect("the JSON text should decode");
        assert_eq!(*output, re_converted);
    }
    let sample_refs: Vec<&Output> = samples.iter().collect();
    let json_str = Output::vec_to_json_string(&samples);
    let json_str_ref = Output::vec_ref_to_json_string(&sample_refs);
    println!("{}", json_str);
    let re_converted =
        Output::vec_try_from_json_string(&json_str).expect("the JSON array should decode");
    let re_converted_ref =
        Output::vec_try_from_json_string(&json_str_ref).expect("the JSON array should decode");
    assert_eq!(samples, re_converted);
    assert_eq!(samples, re_converted_ref);
    assert_eq!(re_converted, re_converted_ref);
}

#[test]
fn test_exact_encodings() {
    let err = Output::ERROR { description: "err".into() };
    assert_eq!(err.to_json_string(), "{\"type\":\"ERROR\",\"content\":\"err\"}");
    let with_narsese = Output::IN { content: "in".into(), narsese: narsese("<in --> out>") };
    assert_eq!(
        with_narsese.to_json_string(),
        "{\"type\":\"IN\",\"content\":\"in\",\"narsese\":\"<in --> out>\"}",
    );
    let exe = Output::EXE {
        content_raw: "go".into(),
        operation: Operation::try_from_strings("left", &vec!["{SELF}".to_string()]).unwrap(),
    };
    assert_eq!(
        exe.to_json_string(),
        "{\"type\":\"EXE\",\"content\":\"go\",\"operation\":[\"left\",\"{SELF}\"]}",
    );
    let empty: Vec<Output> = vec![];
    assert_eq!(Output::vec_to_json_string(&empty), "[]");
}

#[test]
fn test_escaping_round_trip() {
    let tricky = Output::COMMENT { content: "a\"b\\c\nd\u{1}e/|\tf".into() };
    let text = tricky.to_json_string();
    assert_eq!(
        text,
        "{\"type\":\"COMMENT\",\"content\":\"a\\\"b\\\\c\\nd\\u0001e/|\\tf\"}",
    );
    let back = Output::try_from_json_string(&text).unwrap();
    assert_eq!(tricky, back);
}

#[test]
fn test_decode_accepts_whitespace_and_any_order() {
    let o = Output::try_from_json_string(
        " { \"content\" : \"x\" ,\n\t\"type\" : \"INFO\" } ",
    )
    .unwrap();
    assert_eq!(o, Output::INFO { message: "x".into() });
    let o2 = Output::try_from_json_string(
        "{\"operation\":[\"op\"],\"content\":\"c\",\"type\":\"EXE\"}",
    )
    .unwrap();
    assert_eq!(o2, Output::EXE {
        content_raw: "c".into(),
        operation: Operation::new("op", vec![]),
    });
}

#[test]
fn test_decode_unicode_escapes() {
    let o = Output::try_from_json_string(
        "{\"type\":\"OTHER\",\"content\":\"\\u0041\\u00e9\\ud83d\\ude00\"}",
    )
    .unwrap();
    assert_eq!(o, Output::OTHER { content: "A\u{e9}\u{1F600}".into() });
}

#[test]
fn test_decode_errors() {
    let cases: Vec<(&str, OutputDecodeError)> = vec![
        ("[", OutputDecodeError::Json),
        ("{\"type\":\"IN\"}", OutputDecodeError::Json),
        ("{\"content\":\"x\"}", OutputDecodeError::Json),
        ("{\"type\":\"IN\",\"content\":\"x\",\"type\":\"IN\"}", OutputDecodeError::Json),
        ("{\"type\":null,\"content\":\"x\"}", OutputDecodeError::Json),
        ("{\"type\":\"IN\",\"content\":\"x\",\"extra\":}", OutputDecodeError::Json),
        ("{\"type\":\"IN\",\"content\":\"x\"} trailing", OutputDecodeError::Json),
        ("{\"type\":\"EXE\",\"content\":\"x\"}", OutputDecodeError::MissingOperation),
        ("{\"type\":\"EXE\",\"content\":\"x\",\"operation\":[]}",
            OutputDecodeError::MissingOperator),
        ("{\"type\":\"IN\",\"content\":\"x\",\"narsese\":\"<bad\"}",
            OutputDecodeError::TermParse),
        ("{\"type\":\"IN\",\"content\":\"x\",\"operation\":[\"op\",\"<bad\"]}",
            OutputDecodeError::TermParse),
    ];
    for (text, expected) in cases {
        let got = Output::try_from_json_string(text).unwrap_err();
        assert_eq!(got, expected, "for input {}", text);
    }
}

#[test]
fn test_decode_skips_unknown_members() {
    // Foreign fields of any shape are ignored, as a schema reader should.
    let o = Output::try_from_json_string(
        "{\"type\":\"INFO\",\"content\":\"x\",\"extra\":{\"a\":[1,true,null,\"s\"],\"b\":-1.5e3},\"more\":\"y\"}",
    )
    .unwrap();
    assert_eq!(o, Output::INFO { message: "x".into() });
}

#[test]
fn test_decode_accepts_explicit_null() {
    // An explicit null for an optional field counts as absent.
    let o = Output::try_from_json_string(
        "{\"type\":\"IN\",\"content\":\"x\",\"narsese\":null}",
    )
    .unwrap();
    assert_eq!(o, Output::IN { content: "x".into(), narsese: None });
    let e = Output::try_from_json_string(
        "{\"type\":\"EXE\",\"content\":\"x\",\"operation\":null}",
    )
    .unwrap_err();
    assert_eq!(e, OutputDecodeError::MissingOperation);
}

#[test]
fn test_operation_surface_syntax() {
    let op = Operation::try_from_strings("left", &vec!["{SELF}".to_string(), "A".to_string()])
        .unwrap();
    assert_eq!(op.to_text(), "<(*, {SELF}, A) --> ^left>");
    let bare = Operation::new("halt", vec![]);
    assert_eq!(bare.to_text(), "<(*) --> ^halt>");
}

#[test]
fn test_decode_drops_foreign_payloads() {
    // A non-EXE record may carry an operation and a non-term-bearing variant
    // a narsese text; both are validated, then dropped by the fold.
    let o = Output::try_from_json_string(
        "{\"type\":\"ERROR\",\"content\":\"x\",\"narsese\":\"A.\"}",
    )
    .unwrap();
    assert_eq!(o, Output::ERROR { description: "x".into() });
}

#[test]
fn test_output_accessors() {
    let exe = Output::EXE {
        content_raw: "line".into(),
        operation: Operation::new(
            "left",
            vec![TermText::parse("{SELF}").unwrap()],
        ),
    };
    assert_eq!(exe.type_tag(), "EXE");
    assert_eq!(exe.get_type(), "EXE");
    assert_eq!(exe.raw_content(), "line");
    assert_eq!(exe.get_content(), "line");
    assert!(exe.is_type("EXE"));
    assert!(!exe.is_type("IN"));
    assert!(exe.get_narsese().is_none());
    let op = exe.get_operation().unwrap();
    assert_eq!(op.operator_name, "left");
    assert!(op.has_params());
    assert!(!op.no_params());
    assert_eq!(op.to_json_string(), "[\"left\",\"{SELF}\"]");

    let unclassified = Output::UNCLASSIFIED {
        type_tag: "ANTICIPATE".into(),
        content: "c".into(),
        narsese: narsese("A."),
    };
    assert_eq!(unclassified.type_tag(), "ANTICIPATE");
    assert_eq!(unclassified.get_narsese().unwrap().text(), "A.");
}

#[test]
fn test_json_struct_fields() {
    let o = Output::ANSWER { content_raw: "ans".into(), narsese: narsese("<A --> B>.") };
    let json = o.to_json_struct();
    assert_eq!(json.type_tag, "ANSWER");
    assert_eq!(json.content, "ans");
    assert_eq!(json.narsese, Some("<A --> B>.".to_string()));
    assert_eq!(json.operation, None);
    let text = json.to_json_string();
    let json2 = OutputJSON::try_from_json_string(&text).unwrap();
    assert_eq!(json, json2);
}

#[test]
fn test_interop_with_a_general_json_reader() {
    // The emitted text is plain JSON: a general JSON library reads it and
    // sees the same fields.
    let o = Output::IN { content: "in".into(), narsese: narsese("<in --> out>") };
    let text = o.to_json_string();
    let value: serde_json::Value = serde_json::from_str(&text).unwrap();
    assert_eq!(value.get("type").unwrap().as_str().unwrap(), "IN");
    assert_eq!(value.get("content").unwrap().as_str().unwrap(), "in");
    assert_eq!(value.get("narsese").unwrap().as_str().unwrap(), "<in --> out>");
    // And text written by that library decodes here.
    let mut m = serde_json::Map::new();
    m.insert("type".to_string(), serde_json::Value::String("INFO".to_string()));
    m.insert("content".to_string(), serde_json::Value::String("fine".to_string()));
    let foreign = serde_json::Value::Object(m).to_string();
    let back = Output::try_from_json_string(&foreign).unwrap();
    assert_eq!(back, Output::INFO { message: "fine".into() });
}
