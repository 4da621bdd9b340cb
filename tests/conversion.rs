use csvtoron::table::has_unclosed_quote;
use csvtoron::{
    chars_of, convert, csvreader, document_from_csv, is_float_literal, matcher, parse_u64,
    prepare_output, ron_filename, ConvertError, Csvinput, OutRecord, OutType, Ronfile,
};

fn s(x: &str) -> String {
    x.to_string()
}

fn record(entries: &[(&str, OutType)]) -> OutRecord {
    OutRecord { entries: entries.iter().map(|(k, v)| (s(k), v.clone())).collect() }
}

fn table(header: &[&str], rows: &[&[&str]]) -> Csvinput {
    Csvinput {
        header: header.iter().map(|h| s(h)).collect(),
        records: rows.iter().map(|r| r.iter().map(|f| s(f)).collect()).collect(),
    }
}

#[test]
fn names_and_ages_become_text_and_floats() {
    let doc = document_from_csv("name,age\nAlice,30\nBob,25\n").unwrap();
    let expected = Ronfile {
        content: vec![
            record(&[("name", OutType::Str(s("Alice"))), ("age", OutType::F64(s("30")))]),
            record(&[("name", OutType::Str(s("Bob"))), ("age", OutType::F64(s("25")))]),
        ],
    };
    assert_eq!(doc, expected);
    assert_eq!("30".parse::<f64>().unwrap(), 30.0);
    assert_eq!("25".parse::<f64>().unwrap(), 25.0);
}

#[test]
fn empty_field_is_empty_text() {
    let doc = document_from_csv("id,label\n1,\n2,x\n").unwrap();
    assert_eq!(doc.content.len(), 2);
    assert_eq!(doc.content[0], record(&[("id", OutType::F64(s("1"))), ("label", OutType::Str(s("")))]));
    assert_eq!(doc.content[1], record(&[("id", OutType::F64(s("2"))), ("label", OutType::Str(s("x")))]));
}

#[test]
fn long_row_is_an_assembly_error() {
    let r = document_from_csv("a,b\n1,2,3\n");
    assert_eq!(r, Err(ConvertError::Assembly { row: 0, expected: 2, found: 3 }));
    assert_eq!(
        prepare_output("input.csv", "a,b\n1,2,3\n"),
        Err(ConvertError::Assembly { row: 0, expected: 2, found: 3 })
    );
}

#[test]
fn short_row_is_an_assembly_error() {
    let r = convert(table(&["a", "b", "c"], &[&["1", "2", "3"], &["4", "5"]]));
    assert_eq!(r, Err(ConvertError::Assembly { row: 1, expected: 3, found: 2 }));
}

#[test]
fn first_mismatching_row_is_reported() {
    let r = convert(table(&["a"], &[&["1"], &["2", "3"], &[]]));
    assert_eq!(r, Err(ConvertError::Assembly { row: 1, expected: 1, found: 2 }));
}

#[test]
fn document_has_one_record_per_row_and_one_entry_per_column() {
    let doc = convert(table(&["a", "b", "c"], &[&["1", "x", ""], &["2.5", "y", "z"], &["q", "r", "s"]]))
        .unwrap();
    assert_eq!(doc.content.len(), 3);
    for rec in &doc.content {
        assert_eq!(rec.entries.len(), 3);
        let labels: Vec<&str> = rec.entries.iter().map(|(k, _)| k.as_str()).collect();
        assert_eq!(labels, vec!["a", "b", "c"]);
    }
    assert_eq!(doc.content[1].entries[0].1, OutType::F64(s("2.5")));
}

#[test]
fn header_only_gives_empty_document() {
    let doc = document_from_csv("a,b\n").unwrap();
    assert_eq!(doc.content.len(), 0);
}

#[test]
fn empty_input_has_no_header() {
    assert_eq!(document_from_csv(""), Err(ConvertError::Parse));
    assert_eq!(csvreader("").unwrap_err(), ConvertError::Parse);
}

#[test]
fn reader_trims_fields_and_labels() {
    let t = csvreader(" city ,  pop \n Boston , 42 \n\"a, b\",x\n").unwrap();
    assert_eq!(t.header, vec![s("city"), s("pop")]);
    assert_eq!(t.records, vec![vec![s("Boston"), s("42")], vec![s("a, b"), s("x")]]);
}

#[test]
fn reader_admits_rows_of_any_length() {
    let t = csvreader("a,b\n1\n1,2,3\n").unwrap();
    assert_eq!(t.records, vec![vec![s("1")], vec![s("1"), s("2"), s("3")]]);
}

#[test]
fn empty_string_is_text() {
    assert_eq!(matcher(s("")), OutType::Str(s("")));
}

#[test]
fn integers_classify_as_floats() {
    for t in ["0", "42", "-7", "007", "18446744073709551615", "18446744073709551616", "+5"] {
        assert_eq!(matcher(s(t)), OutType::F64(s(t)), "{}", t);
    }
}

#[test]
fn float_forms_classify_as_floats() {
    for t in ["3.0", "-0.5", ".5", "5.", "1e5", "1E+5", "2.5e-3", "inf", "-Infinity", "NaN", "+nan", "INF"] {
        assert_eq!(matcher(s(t)), OutType::F64(s(t)), "{}", t);
    }
}

#[test]
fn non_numbers_classify_as_text() {
    for t in ["abc", "1e", ".", "1.2.3", " 5", "5 ", "--1", "e5", "1e+", "infinit", "0x10", "1_000", "+", "-"] {
        assert_eq!(matcher(s(t)), OutType::Str(s(t)), "{}", t);
    }
}

#[test]
fn float_recogniser_agrees_with_std() {
    let samples = [
        "", "0", "-0", "+0", "1", "12.", ".12", ".", "..", "1..2", "1.2.3", "1e", "1e1", "1E1", "1e+1",
        "1e-1", "1e+-1", "e1", ".e1", "1.e1", ".1e1", "inf", "Inf", "INFINITY", "infinity", "infinit",
        "nan", "NaN", "-nan", "+inf", "-inf", "++1", "+-1", "-", "+", " 1", "1 ", "1,0", "abc", "٣",
        "1e999", "0.000001", "123456789012345678901234567890",
    ];
    for t in samples {
        let ours = is_float_literal(&chars_of(t));
        let std_ok = t.parse::<f64>().is_ok();
        assert_eq!(ours, std_ok, "{:?}", t);
    }
}

#[test]
fn unsigned_parser_agrees_with_std() {
    let samples = [
        "", "0", "+0", "-0", "42", "+42", "-42", "+", "18446744073709551615", "18446744073709551616",
        "99999999999999999999", "1 ", "1a", "00012",
    ];
    for t in samples {
        assert_eq!(parse_u64(&chars_of(t)), t.parse::<u64>().ok(), "{:?}", t);
    }
    assert_eq!(parse_u64(&chars_of("18446744073709551615")), Some(u64::MAX));
}

#[test]
fn classification_is_deterministic() {
    for t in ["x", "1", "", "2.5", "nan"] {
        assert_eq!(matcher(s(t)), matcher(s(t)));
    }
}

#[test]
fn text_cells_never_hold_numbers() {
    for t in ["abc", "", "1e", "12a", "1.2.3"] {
        match matcher(s(t)) {
            OutType::Str(v) => assert!(v.parse::<f64>().is_err() && v.parse::<u64>().is_err()),
            other => panic!("{:?}", other),
        }
    }
    match matcher(s("7.25")) {
        OutType::F64(v) => assert_eq!(v.parse::<f64>().unwrap(), 7.25),
        other => panic!("{:?}", other),
    }
}

#[test]
fn output_name_takes_first_segment() {
    assert_eq!(ron_filename("data.v2.csv"), Ok(s("data.ron")));
    assert_eq!(ron_filename("table.csv"), Ok(s("table.ron")));
    assert_eq!(ron_filename(".hidden"), Ok(s(".ron")));
}

#[test]
fn name_without_dot_fails() {
    assert_eq!(ron_filename("datafile"), Err(ConvertError::OutputNaming));
    assert_eq!(ron_filename(""), Err(ConvertError::OutputNaming));
    assert_eq!(prepare_output("datafile", "a\n1\n"), Err(ConvertError::OutputNaming));
}

#[test]
fn prepared_output_carries_name_and_document() {
    let (name, doc) = prepare_output("people.csv", "name,age\nAlice,30\n").unwrap();
    assert_eq!(name, "people.ron");
    assert_eq!(doc.content, vec![record(&[("name", OutType::Str(s("Alice"))), ("age", OutType::F64(s("30")))])]);
}

#[test]
fn chars_of_keeps_every_character() {
    assert_eq!(chars_of("aé,ß"), vec!['a', 'é', ',', 'ß']);
}

#[test]
fn output_goes_beside_the_input() {
    assert_eq!(ron_filename("./data.csv"), Ok(s("./data.ron")));
    assert_eq!(ron_filename("dir.v1/data.csv"), Ok(s("dir.v1/data.ron")));
    assert_eq!(ron_filename("/tmp/a/b.c.csv"), Ok(s("/tmp/a/b.ron")));
}

#[test]
fn file_name_without_dot_fails_even_in_dotted_directory() {
    assert_eq!(ron_filename("dir.v1/data"), Err(ConvertError::OutputNaming));
    assert_eq!(ron_filename("./"), Err(ConvertError::OutputNaming));
}

#[test]
fn unclosed_quote_is_a_parse_error() {
    assert_eq!(document_from_csv("a,b\n\"x,1\n"), Err(ConvertError::Parse));
    assert_eq!(csvreader("a\n\"never closed").unwrap_err(), ConvertError::Parse);
    assert!(has_unclosed_quote("\"a\"\"b"));
    assert!(!has_unclosed_quote("\"a\"\"b\""));
}

#[test]
fn closed_and_inner_quotes_are_accepted() {
    let t = csvreader("a,b\n\"x\"\"y\",z\"w\n").unwrap();
    assert_eq!(t.records, vec![vec![s("x\"y"), s("z\"w")]]);
    assert!(!has_unclosed_quote("a,b\nx,y\"z\n"));
}

#[test]
fn default_cell_is_empty_text() {
    assert_eq!(OutType::default(), OutType::Str(s("")));
}

#[test]
fn fields_come_out_trimmed() {
    let t = csvreader("\t a \t, b\n  1\t,\x0B x \x0C\n").unwrap();
    assert_eq!(t.header, vec![s("a"), s("b")]);
    assert_eq!(t.records, vec![vec![s("1"), s("x")]]);
}
