use audit_stats::report::{json_report, yaml_report};
use audit_stats::{render, summarize, Format, ReportError, Stats};

const INPUT: &str = "type=SYSCALL pid=100 uid=0\ntype=SYSCALL pid=100 uid=0\n";

#[test]
fn the_default_format_is_yaml() {
    assert_eq!(Format::default(), Format::Yaml);
}

#[test]
fn json_is_pretty_printed_in_table_order() {
    let expected = "{\n  \"UNKNOWN\": {\n    \"type\": {\n      \"SYSCALL\": 2\n    },\n    \"pid\": {\n      \"100\": 2\n    },\n    \"uid\": {\n      \"0\": 2\n    }\n  }\n}";
    assert_eq!(render(&summarize(INPUT), Format::Json), Ok(expected.to_string()));
}

#[test]
fn yaml_is_written_in_table_order() {
    let expected = "UNKNOWN:\n  type:\n    SYSCALL: 2\n  pid:\n    '100': 2\n  uid:\n    '0': 2\n";
    assert_eq!(render(&summarize(INPUT), Format::Yaml), Ok(expected.to_string()));
}

#[test]
fn an_empty_table_is_an_empty_map() {
    assert_eq!(render(&Stats::new(), Format::Json), Ok("{}".to_string()));
    assert_eq!(render(&Stats::new(), Format::Yaml), Ok("{}\n".to_string()));
}

#[test]
fn render_gives_what_the_serialisers_give() {
    let stats = summarize("exe=/b pid=2\nexe=/a uid=1\nexe=/b pid=3 comm=\"x y\"\n");
    assert_eq!(render(&stats, Format::Json).unwrap(), serde_json::to_string_pretty(&stats).unwrap());
    assert_eq!(render(&stats, Format::Yaml).unwrap(), serde_yaml::to_string(&stats).unwrap());
}

#[test]
fn a_text_that_was_written_is_passed_on() {
    assert_eq!(json_report(Ok("{}".to_string())), Ok("{}".to_string()));
    assert_eq!(yaml_report(Ok("{}\n".to_string())), Ok("{}\n".to_string()));
}

#[test]
fn a_serialiser_error_becomes_the_error_of_its_format() {
    let json_error = serde_json::from_str::<u32>("x").unwrap_err();
    let json_message = json_error.to_string();
    assert_eq!(json_message, "expected value at line 1 column 1");
    assert_eq!(json_report(Err(json_error)), Err(ReportError::Json(json_message)));
    let yaml_error = serde_yaml::from_str::<u32>("[").unwrap_err();
    let yaml_message = yaml_error.to_string();
    assert!(!yaml_message.is_empty());
    assert_eq!(yaml_report(Err(yaml_error)), Err(ReportError::Yaml(yaml_message)));
}

#[test]
fn an_error_hands_out_its_message() {
    assert_eq!(ReportError::Json("bad key".to_string()).message(), "bad key");
    assert_eq!(ReportError::Yaml("bad value".to_string()).message(), "bad value");
}
