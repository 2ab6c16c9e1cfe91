use csv::errors::Error;
use csv::{Record, SaveState, CSV};

fn sample_data() -> Vec<Record> {
    vec![
        vec![String::from("Header 1"), String::from("Header 2"), String::from("Header 3")],
        vec![String::from("Value 1"), String::from("Value 2"), String::from("Value 3")],
        vec![String::from("Value 4"), String::from("Value 5"), String::from("Value 6")],
        vec![String::from("Header 1"), String::from("Header 2"), String::from("Header 3")],
    ]
}

#[test]
fn record_test_type() {
    let _record: Record = vec!["one".to_string(), "two".to_string()];
    assert!(true);
}

#[test]
fn csv_new_no_data() {
    let _csv = CSV::new("test.csv");
    assert!(_csv.is_ok());
}

#[test]
fn csv_new_with_data() {
    let data: Vec<Record> = sample_data();

    let _csv = CSV::new_with_data("test.csv", data);

    assert!(_csv.is_ok());
}

#[test]
fn test_check_state() {
    let csv = CSV::new("test.csv").unwrap();
    assert!(match csv.check_state() {
        SaveState::Saved => false,
        SaveState::Unsaved => true,
    });
}

#[test]
fn test_get_record_methods() {
    let data: Vec<Record> = sample_data();

    let csv = CSV::new_with_data("test.csv", data).unwrap();

    if let Ok(header_data) = csv.get_headers() {
        assert_eq!(header_data.get(&0), Some(&&"Header 1".to_string()));
        assert_eq!(header_data.get(&1), Some(&&"Header 2".to_string()));
        assert_eq!(header_data.get(&2), Some(&&"Header 3".to_string()));
    } else {
        assert!(false, "failed to get header data");
    }

    if let Ok(record) = csv.get_last_record() {
        let expected = vec![String::from("Header 1"), String::from("Header 2"), String::from("Header 3")];
        assert_eq!(expected[0], record[0]);
        assert_eq!(expected[1], record[1]);
        assert_eq!(expected[2], record[2]);
    } else {
        assert!(false, "failed to get last record")
    }
    let length = csv.len();
    assert_eq!(4, length);
}

#[test]
fn test_inserts_lengths() {
    let mut csv = CSV::new("test.csv").unwrap();
    assert_eq!(csv.len(), 0);

    let single_record: Record = vec![String::from("Head 1"), String::from("Head 2")];
    csv.insert_one(single_record);
    assert_eq!(csv.len(), 1);
    assert_eq!(csv.record_len().unwrap(), 2);

    let multi_record: Vec<Record> = vec![
        vec![String::from("Value 1"), String::from("Value 2")],
        vec![String::from("Value 4"), String::from("Value 5")],
        vec![String::from("Header 1"), String::from("Header 2")],
    ];
    csv.insert_multi(multi_record);
    assert_eq!(csv.len(), 4);
}

#[test]
fn new_rejects_wrong_extension() {
    assert!(matches!(CSV::new("test"), Err(Error::IncorrectFileType(_))));
    assert!(matches!(CSV::new("notes.txt"), Err(Error::IncorrectFileType(_))));
    assert!(matches!(CSV::new("upper.CSV"), Err(Error::IncorrectFileType(_))));
    assert!(matches!(CSV::new("csv"), Err(Error::IncorrectFileType(_))));
    assert!(CSV::new(".csv").is_ok());
}

#[test]
fn new_with_data_rejects_wrong_extension() {
    assert!(matches!(CSV::new_with_data("test.abc", sample_data()), Err(Error::IncorrectFileType(_))));
}

#[test]
fn new_from_text_rejects_wrong_extension_first() {
    assert!(matches!(CSV::new_from_text("notes.txt", "a,b\nc,d"), Err(Error::IncorrectFileType(_))));
    assert!(matches!(CSV::new_from_text("notes.txt", "justoneword"), Err(Error::IncorrectFileType(_))));
}

#[test]
fn new_from_text_rejects_unshaped_text() {
    assert!(matches!(CSV::new_from_text("notes.csv", "justoneword"), Err(Error::Parse(_))));
}

#[test]
fn new_from_text_parses_records() {
    let text = "header 1,header 2,header 3\nvalue 1,value 2,value 3\nvalue 4,value 5,value 6\n";
    let csv = CSV::new_from_text("./tests/test_data/instance_test.csv", text).unwrap();
    let expected_data: Vec<Record> = vec![
        vec!["header 1".to_string(), "header 2".to_string(), "header 3".to_string()],
        vec!["value 1".to_string(), "value 2".to_string(), "value 3".to_string()],
        vec!["value 4".to_string(), "value 5".to_string(), "value 6".to_string()],
    ];
    assert_eq!(expected_data, csv.data);
    assert_eq!("./tests/test_data/instance_test.csv", csv.path);
}

#[test]
fn every_constructor_starts_unsaved() {
    let a = CSV::new("a.csv").unwrap();
    let b = CSV::new_with_data("b.csv", sample_data()).unwrap();
    let c = CSV::new_from_text("c.csv", "x,y\n1,2").unwrap();
    assert_eq!(*a.check_state(), SaveState::Unsaved);
    assert_eq!(*b.check_state(), SaveState::Unsaved);
    assert_eq!(*c.check_state(), SaveState::Unsaved);
}

#[test]
fn successful_save_marks_saved() {
    let mut csv = CSV::new_with_data("test.csv", sample_data()).unwrap();
    assert!(csv.complete_save(true).is_ok());
    assert_eq!(*csv.check_state(), SaveState::Saved);
    csv.insert_one(vec![String::from("later")]);
    assert_eq!(*csv.check_state(), SaveState::Saved);
}

#[test]
fn failed_save_reports_write_error() {
    let mut csv = CSV::new("test.csv").unwrap();
    assert!(matches!(csv.complete_save(false), Err(Error::Write)));
    assert_eq!(*csv.check_state(), SaveState::Unsaved);
}

#[test]
fn accessors_on_empty_document_report_no_data() {
    let csv = CSV::new("empty.csv").unwrap();
    assert!(matches!(csv.get_last_record(), Err(Error::DataNotFound(_))));
    assert!(matches!(csv.get_headers(), Err(Error::DataNotFound(_))));
    assert!(matches!(csv.record_len(), Err(Error::DataNotFound(_))));
    assert!(csv.is_empty());
    assert_eq!(csv.len(), 0);
}

#[test]
fn accessors_on_records_without_fields_report_no_data() {
    let csv = CSV::new_with_data("blank.csv", vec![Vec::new()]).unwrap();
    assert!(matches!(csv.get_last_record(), Err(Error::DataNotFound(_))));
    assert!(matches!(csv.get_headers(), Err(Error::DataNotFound(_))));
    assert_eq!(csv.record_len().unwrap(), 0);
    assert!(!csv.is_empty());
}

#[test]
fn headers_cover_each_column() {
    let csv = CSV::new_with_data("h.csv", vec![vec![String::from("a"), String::from("b")]]).unwrap();
    let headers = csv.get_headers().unwrap();
    assert_eq!(headers.len(), 2);
    assert_eq!(headers.get(&1), Some(&&String::from("b")));
    assert_eq!(headers.get(&2), None);
}

#[test]
fn insert_multi_keeps_order() {
    let mut csv = CSV::new_with_data("o.csv", vec![vec![String::from("first")]]).unwrap();
    csv.insert_multi(vec![vec![String::from("second")], vec![String::from("third")]]);
    let expected: Vec<Record> =
        vec![vec![String::from("first")], vec![String::from("second")], vec![String::from("third")]];
    assert_eq!(csv.data, expected);
    assert_eq!(csv.get_last_record().unwrap(), &vec![String::from("third")]);
}

#[test]
fn contents_is_the_comma_text() {
    let csv = CSV::new_with_data(
        "c.csv",
        vec![vec![String::from("a"), String::from("b,c")], vec![String::from("d"), String::from("")]],
    )
    .unwrap();
    assert_eq!(csv.contents(), "a,\"b,c\"\nd,");
}

#[test]
fn error_messages() {
    let wrong = csv::errors::IncorrectFileType::new();
    assert_eq!(wrong.description(), "Path does not point to a CSV file");
    assert_eq!(wrong.to_string(), "Incorrect file type. You must use the \".CSV\" file extension.");
    let missing = csv::errors::DataNotFound::new();
    assert_eq!(missing.description(), "No records to read");
    assert_eq!(missing.to_string(), "No Data found");
    let parse = csv::errors::ParseError::new();
    assert_eq!(parse.description(), "Unable to parse CSV, please check file");
    assert_eq!(parse.to_string(), "Unable to parse CSV: the text holds neither a comma nor a newline.");
}
