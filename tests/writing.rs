use csv::utils::{raw_csv_to_records, records_to_string};
use csv::Record;

fn rec(fields: &[&str]) -> Record {
    fields.iter().map(|f| f.to_string()).collect()
}

#[test]
fn utils_records_to_string() {
    let records: Vec<Record> = vec![
        vec![String::from("one"), String::from("two"), String::from("three")],
        vec![String::from("four"), String::from("five"), String::from("six")],
        vec![String::from("seven"), String::from("eight"), String::from("nine")],
    ];

    let result = records_to_string(&records, ',');
    assert_eq!(String::from("one,two,three\nfour,five,six\nseven,eight,nine"), result);
}

#[test]
fn utils_records_to_string_with_blanks() {
    let records: Vec<Record> = vec![
        vec![String::from("one"), "".to_string(), String::from("three")],
        vec![String::from("four"), String::from("five"), String::from("six")],
        vec![String::from("seven"), String::from("eight"), String::from("nine")],
    ];

    let result = records_to_string(&records, ',');
    assert_eq!(String::from("one,,three\nfour,five,six\nseven,eight,nine"), result);
}

#[test]
fn end_to_end_parse_then_write() {
    let records = raw_csv_to_records("h1,h2\nv1,v2\n").unwrap();
    assert_eq!(records, vec![rec(&["h1", "h2"]), rec(&["v1", "v2"])]);
    assert_eq!(records_to_string(&records, ','), "h1,h2\nv1,v2");
}

#[test]
fn plain_records_round_trip() {
    let records = vec![rec(&["a", "", "c"]), rec(&["d"]), rec(&["", "f"])];
    let text = records_to_string(&records, ',');
    assert_eq!(text, "a,,c\nd\n,f");
    assert_eq!(raw_csv_to_records(&text).unwrap(), records);
}

#[test]
fn quoted_records_round_trip() {
    let records = vec![rec(&["a,b", "say \"hi\""]), rec(&["x\ny", "z"]), rec(&["\"", ""])];
    let text = records_to_string(&records, ',');
    assert_eq!(text, "\"a,b\",\"say \"\"hi\"\"\"\n\"x\ny\",z\n\"\"\"\",");
    assert_eq!(raw_csv_to_records(&text).unwrap(), records);
}

#[test]
fn single_field_with_comma_round_trips() {
    let records = vec![rec(&["a,b"])];
    let text = records_to_string(&records, ',');
    assert_eq!(text, "\"a,b\"");
    assert_eq!(raw_csv_to_records(&text).unwrap(), records);
}

#[test]
fn other_delimiter_writes_directive() {
    let records = vec![rec(&["a", "b;c"]), rec(&["d", "e,f"])];
    assert_eq!(records_to_string(&records, ';'), "sep=;\na;\"b;c\"\nd;e,f");
}

#[test]
fn no_records_gives_empty_text() {
    let records: Vec<Record> = Vec::new();
    assert_eq!(records_to_string(&records, ','), "");
    assert_eq!(records_to_string(&records, '\t'), "sep=\t");
}

#[test]
fn record_without_fields_is_an_empty_line() {
    let records = vec![rec(&["a"]), Vec::new(), rec(&["b"])];
    assert_eq!(records_to_string(&records, ','), "a\n\nb");
}
