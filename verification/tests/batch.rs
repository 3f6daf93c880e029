use json_ftl::batch::{
    convert_file, convert_file_text, file_report, is_json_file, output_directory, output_path,
    total_report, ConvertedFile, RunTotals,
};
use json_ftl::document::ConvertError;
use json_ftl::rebind::get_rebindings;

#[test]
fn names_that_end_with_json_are_input_files() {
    assert!(is_json_file("lang.json"));
    assert!(is_json_file(".json"));
    assert!(is_json_file("en-US.v2.json"));
    assert!(!is_json_file("lang.JSON"));
    assert!(!is_json_file("lang.Json"));
    assert!(!is_json_file("lang.json.bak"));
    assert!(!is_json_file("langjson"));
    assert!(!is_json_file("json"));
    assert!(!is_json_file(""));
    assert!(!is_json_file("lang.jso"));
}

#[test]
fn output_directory_is_the_name_up_to_the_first_dot() {
    assert_eq!(output_directory("lang.json"), "lang");
    assert_eq!(output_directory("en-US.v2.json"), "en-US");
    assert_eq!(output_directory(".json"), "");
    assert_eq!(output_directory("plain"), "plain");
}

#[test]
fn output_file_is_basic_ftl_in_the_output_directory() {
    assert_eq!(output_path("lang.json"), "lang/basic.ftl");
    assert_eq!(output_path("en-US.v2.json"), "en-US/basic.ftl");
}

#[test]
fn file_is_converted_from_end_to_end() {
    let input = "{\"Hello World\": \"Hi `x`!\", \"x_ago\": {\"\": \"{{count}} days ago\"}}";
    let expected = ConvertedFile {
        directory: "lang".to_string(),
        path: "lang/basic.ftl".to_string(),
        contents: "hello_world=Hi { $x }!\nupload_date={ $x } days ago".to_string(),
        line_count: 2,
    };
    assert_eq!(convert_file_text("lang.json", input, &get_rebindings()), Ok(expected));
    let same = convert_file("lang.json", input.as_bytes(), &get_rebindings()).unwrap();
    assert_eq!(same.contents, "hello_world=Hi { $x }!\nupload_date={ $x } days ago");
    assert_eq!(same.line_count, 2);
}

#[test]
fn empty_document_gives_an_empty_file() {
    let file = convert_file("empty.json", b"{}", &get_rebindings()).unwrap();
    assert_eq!(file.directory, "empty");
    assert_eq!(file.path, "empty/basic.ftl");
    assert_eq!(file.contents, "");
    assert_eq!(file.line_count, 0);
    let mut totals = RunTotals::new();
    totals.record("empty.json", file.line_count);
    assert_eq!(totals.total(), 0);
}

#[test]
fn malformed_value_gives_no_file() {
    assert_eq!(
        convert_file("bad.json", b"{\"k\": 5}", &get_rebindings()),
        Err(ConvertError::InvalidValueShape { key: "k".to_string() })
    );
}

#[test]
fn malformed_input_gives_no_file() {
    assert_eq!(convert_file("bad.json", b"{\"k\": ", &get_rebindings()), Err(ConvertError::MalformedInput));
    assert_eq!(convert_file("bad.json", b"[\"k\"]", &get_rebindings()), Err(ConvertError::MalformedInput));
    assert_eq!(convert_file("bad.json", b"", &get_rebindings()), Err(ConvertError::MalformedInput));
}

#[test]
fn bytes_that_are_not_utf8_are_replaced() {
    let file = convert_file("a.json", b"{\"k\": \"a\xffb\"}", &get_rebindings()).unwrap();
    assert_eq!(file.contents, "k=a\u{fffd}b");
    let utf8 = convert_file("a.json", "{\"\u{c5}\": \"\u{2764}\"}".as_bytes(), &get_rebindings()).unwrap();
    assert_eq!(utf8.contents, "\u{e5}=\u{2764}");
}

#[test]
fn file_report_names_the_file_and_its_count() {
    assert_eq!(file_report("lang.json", 2), "lang.json: Parsed 2 lines into proper format!");
    assert_eq!(file_report("", 0), ": Parsed 0 lines into proper format!");
    assert_eq!(file_report("a.json", 10), "a.json: Parsed 10 lines into proper format!");
}

#[test]
fn total_report_names_the_total() {
    assert_eq!(total_report(0), "Parsed a total 0 lines into proper format!");
    assert_eq!(total_report(9), "Parsed a total 9 lines into proper format!");
    assert_eq!(total_report(1234567890), "Parsed a total 1234567890 lines into proper format!");
    assert_eq!(
        total_report(usize::MAX),
        format!("Parsed a total {} lines into proper format!", usize::MAX)
    );
}

#[test]
fn totals_add_up() {
    let mut totals = RunTotals::new();
    assert_eq!(totals.total(), 0);
    assert_eq!(totals.files(), 0);
    assert_eq!(totals.line_count(0), None);
    totals.record("a.json", 3);
    totals.record("b.json", 0);
    totals.record("c.json", 39);
    assert_eq!(totals.total(), 42);
    assert_eq!(totals.files(), 3);
    assert_eq!(totals.line_count(0), Some(3));
    assert_eq!(totals.line_count(1), Some(0));
    assert_eq!(totals.line_count(2), Some(39));
    assert_eq!(totals.line_count(3), None);
    assert_eq!(totals.file_name(0), Some("a.json".to_string()));
    assert_eq!(totals.file_name(2), Some("c.json".to_string()));
    assert_eq!(totals.file_name(3), None);
}

#[test]
fn totals_tell_when_a_count_does_not_fit() {
    let mut totals = RunTotals::new();
    assert!(totals.can_record(usize::MAX));
    totals.record("a.json", 1);
    assert!(totals.can_record(usize::MAX - 1));
    assert!(!totals.can_record(usize::MAX));
}
