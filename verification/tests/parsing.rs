use ifc_inspector::decode_step_string;
use ifc_inspector::ifc::format_step_value;
use ifc_inspector::StepFile;
use ifc_inspector::StepValue;

#[test]
fn decodes_unicode_block() {
    assert_eq!(decode_step_string("\\X2\\00E900E8\\X0\\"), "\u{e9}\u{e8}");
}

#[test]
fn decodes_lowercase_hex_block() {
    assert_eq!(decode_step_string("\\X2\\00e900e8\\X0\\"), "\u{e9}\u{e8}");
}

#[test]
fn decodes_doubled_quote() {
    assert_eq!(decode_step_string("What''s"), "What's");
}

#[test]
fn decodes_extended_latin_byte() {
    assert_eq!(decode_step_string("\\X\\E9"), "\u{e9}");
}

#[test]
fn decodes_shifted_byte() {
    assert_eq!(decode_step_string("\\S\\a"), "\u{e1}");
}

#[test]
fn decodes_escaped_backslash() {
    assert_eq!(decode_step_string("a\\\\b"), "a\\b");
}

#[test]
fn passes_unknown_escape_through() {
    assert_eq!(decode_step_string("a\\zb"), "a\\zb");
}

#[test]
fn drops_malformed_hex_group() {
    assert_eq!(decode_step_string("\\X2\\00GG\\X0\\"), "");
}

#[test]
fn drops_incomplete_hex_group() {
    assert_eq!(decode_step_string("\\X2\\00E91\\X0\\"), "\u{e9}");
}

fn parse_one(attrs: &str) -> Vec<StepValue> {
    let text = format!("DATA;\n#1=IFCTEST({attrs});\nENDSEC;\n");
    let file = StepFile::parse(&text).unwrap();
    let ent = file.get_entity(1).expect("record missing");
    let mut out = Vec::new();
    for v in &ent.values {
        out.push(clone_value(v));
    }
    out
}

fn clone_value(v: &StepValue) -> StepValue {
    match v {
        StepValue::Text(s) => StepValue::Text(s.clone()),
        StepValue::Real(m) => StepValue::Real(*m),
        StepValue::Integer(i) => StepValue::Integer(*i),
        StepValue::Boolean(b) => StepValue::Boolean(*b),
        StepValue::Enum(e) => StepValue::Enum(e.clone()),
        StepValue::Reference(r) => StepValue::Reference(*r),
        StepValue::List(l) => {
            let mut out = Vec::new();
            for x in l {
                out.push(clone_value(x));
            }
            StepValue::List(out)
        }
        StepValue::Null => StepValue::Null,
        StepValue::Derived => StepValue::Derived,
    }
}

#[test]
fn classifies_null_and_derived() {
    let vs = parse_one("$,*");
    assert_eq!(vs, vec![StepValue::Null, StepValue::Derived]);
}

#[test]
fn classifies_reference() {
    let vs = parse_one("#42");
    assert_eq!(vs, vec![StepValue::Reference(42)]);
}

#[test]
fn classifies_quoted_text() {
    let vs = parse_one("'hello'");
    assert_eq!(vs, vec![StepValue::Text(String::from("hello"))]);
}

#[test]
fn classifies_booleans_and_enums() {
    let vs = parse_one(".T.,.F.,.NOTDEFINED.");
    assert_eq!(
        vs,
        vec![
            StepValue::Boolean(true),
            StepValue::Boolean(false),
            StepValue::Enum(String::from("NOTDEFINED")),
        ]
    );
}

#[test]
fn classifies_numbers() {
    let vs = parse_one("123,-7,1.5,-2.5,2.");
    assert_eq!(
        vs,
        vec![
            StepValue::Integer(123),
            StepValue::Integer(-7),
            StepValue::Real(1_500_000),
            StepValue::Real(-2_500_000),
            StepValue::Real(2_000_000),
        ]
    );
}

#[test]
fn classifies_exponent_reals() {
    let vs = parse_one("1.0E-3,2E2");
    assert_eq!(vs, vec![StepValue::Real(1_000), StepValue::Real(200_000_000)]);
}

#[test]
fn saturates_huge_real() {
    let vs = parse_one("1E30");
    assert_eq!(vs, vec![StepValue::Real(i64::MAX)]);
}

#[test]
fn classifies_nested_list() {
    let vs = parse_one("(1,2),(#3)");
    assert_eq!(
        vs,
        vec![
            StepValue::List(vec![StepValue::Integer(1), StepValue::Integer(2)]),
            StepValue::List(vec![StepValue::Reference(3)]),
        ]
    );
}

#[test]
fn unwraps_typed_wrapper() {
    let vs = parse_one("IFCBOOLEAN(.T.)");
    assert_eq!(vs, vec![StepValue::Boolean(true)]);
}

#[test]
fn keeps_verbatim_text() {
    let vs = parse_one("SOMETOKEN");
    assert_eq!(vs, vec![StepValue::Text(String::from("SOMETOKEN"))]);
}

#[test]
fn quoted_commas_are_literal() {
    let vs = parse_one("'a,b',3");
    assert_eq!(
        vs,
        vec![StepValue::Text(String::from("a,b")), StepValue::Integer(3)]
    );
}

#[test]
fn reads_schema_declaration() {
    let text = "ISO-10303-21;\nHEADER;\nFILE_SCHEMA(('IFC4'));\nENDSEC;\nDATA;\nENDSEC;\n";
    let file = StepFile::parse(text).unwrap();
    assert_eq!(file.schema, "IFC4");
}

#[test]
fn ignores_records_outside_data_section() {
    let text = "#1=IFCWALL('g',$,$);\nDATA;\n#2=IFCWALL('h',$,$);\nENDSEC;\n#3=IFCWALL('i',$,$);\n";
    let file = StepFile::parse(text).unwrap();
    assert!(file.get_entity(1).is_none());
    assert!(file.get_entity(2).is_some());
    assert!(file.get_entity(3).is_none());
}

#[test]
fn drops_unparsable_lines() {
    let text = "DATA;\n#broken line\n#2=IFCWALL('g',$,$);\n#5=NOPAREN;\nENDSEC;\n";
    let file = StepFile::parse(text).unwrap();
    assert!(file.get_entity(2).is_some());
    assert_eq!(file.entities.len(), 1);
}

#[test]
fn finds_records_by_kind() {
    let text = "DATA;\n#1=IFCWALL('a',$);\n#2=IFCDOOR('b',$);\n#3=IFCWALL('c',$);\nENDSEC;\n";
    let file = StepFile::parse(text).unwrap();
    let walls = file.get_entities_by_type("IFCWALL");
    assert_eq!(walls.len(), 2);
    assert_eq!(walls[0].id, 1);
    assert_eq!(walls[1].id, 3);
}

#[test]
fn formats_values_for_display() {
    assert_eq!(format_step_value(&StepValue::Real(1_500_000)), "1.50");
    assert_eq!(format_step_value(&StepValue::Integer(-42)), "-42");
    assert_eq!(format_step_value(&StepValue::Boolean(true)), "Yes");
    assert_eq!(format_step_value(&StepValue::Boolean(false)), "No");
    assert_eq!(format_step_value(&StepValue::Reference(7)), "#7");
    assert_eq!(format_step_value(&StepValue::Null), "-");
    assert_eq!(format_step_value(&StepValue::Derived), "*");
    assert_eq!(
        format_step_value(&StepValue::List(vec![
            StepValue::Integer(1),
            StepValue::Text(String::from("x")),
        ])),
        "1, x"
    );
}

#[test]
fn describes_error_kinds() {
    let read = ifc_inspector::ParseError::FileRead {
        path: String::from("missing.ifc"),
        message: String::from("not found"),
    };
    assert_eq!(read.describe(), "failed to read file");
    let invalid = ifc_inspector::ParseError::InvalidStep {
        message: String::from("bad"),
    };
    assert_eq!(invalid.describe(), "invalid STEP format");
    assert_ne!(read, invalid);
}

#[test]
fn later_schema_declaration_wins() {
    let text = "FILE_SCHEMA(('IFC2X3'));\nFILE_SCHEMA(('IFC4'));\nDATA;\nENDSEC;\n";
    let file = StepFile::parse(text).unwrap();
    assert_eq!(file.schema, "IFC4");
}

#[test]
fn repeated_record_id_replaces_earlier_record() {
    let text = "DATA;\n#1=IFCWALL('a',$);\n#1=IFCDOOR('b',$);\nENDSEC;\n";
    let file = StepFile::parse(text).unwrap();
    assert_eq!(file.entities.len(), 1);
    assert_eq!(file.get_entity(1).unwrap().entity_type, "IFCDOOR");
}

#[test]
fn empty_token_between_separators_is_empty_text() {
    let vs = parse_one("1,,2");
    assert_eq!(
        vs,
        vec![
            StepValue::Integer(1),
            StepValue::Text(String::new()),
            StepValue::Integer(2),
        ]
    );
}
