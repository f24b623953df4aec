use wherefrom::parser::CliArgs;
use wherefrom::printer::{
    format_result, format_result_jsonl, format_result_print0, origin_limit, OutputScope,
    OutputStrategy,
};

#[test]
fn returns_zero_when_no_origins_are_available() {
    assert_eq!(origin_limit(0, false), 0);
}

#[test]
fn returns_one_when_not_showing_all_and_origins_exist() {
    assert_eq!(origin_limit(1, false), 1);
    assert_eq!(origin_limit(3, false), 1);
}

#[test]
fn returns_all_origins_when_requested() {
    assert_eq!(origin_limit(3, true), 3);
}

#[test]
fn formats_single_file_output_without_prefix() {
    assert_eq!(
        format_result(true, "video.mp4", "https://example.com/video"),
        "https://example.com/video"
    );
}

#[test]
fn formats_multi_file_output_with_path_prefix() {
    assert_eq!(
        format_result(false, "video.mp4", "https://example.com/video"),
        "video.mp4: https://example.com/video"
    );
}

#[test]
fn formats_print0_single_file_as_nul_terminated_origin() {
    assert_eq!(
        format_result_print0(true, "ignored.mp4", "https://example.com/video"),
        b"https://example.com/video\0"
    );
}

#[test]
fn formats_print0_multi_file_as_path_nul_origin_nul() {
    assert_eq!(
        format_result_print0(false, "video:\nclip.mp4", "https://example.com/a:b"),
        b"video:\nclip.mp4\0https://example.com/a:b\0"
    );
}

#[test]
fn origin_limit_with_all_and_no_origins_is_zero() {
    assert_eq!(origin_limit(0, true), 0);
}

#[test]
fn print0_multi_file_splits_at_first_nul() {
    let record = format_result_print0(false, "dir/é.mp4", "https://x/\u{1F600}");
    let k = record.iter().position(|&b| b == 0).unwrap();
    assert_eq!(&record[..k], "dir/é.mp4".as_bytes());
    assert_eq!(&record[k + 1..record.len() - 1], "https://x/\u{1F600}".as_bytes());
    assert_eq!(*record.last().unwrap(), 0);
}

#[test]
fn jsonl_record_plain() {
    assert_eq!(
        format_result_jsonl("a.mp4", "https://example.com/v"),
        b"{\"file\":\"a.mp4\",\"origin\":\"https://example.com/v\"}\n".to_vec()
    );
}

#[test]
fn jsonl_record_escapes_quotes_backslashes_and_controls() {
    assert_eq!(
        format_result_jsonl("a\"b\\c\nd\te\r\u{8}\u{c}\u{1}\u{1f}", "\u{7f}é"),
        "{\"file\":\"a\\\"b\\\\c\\nd\\te\\r\\b\\f\\u0001\\u001f\",\"origin\":\"\u{7f}é\"}\n"
            .as_bytes()
            .to_vec()
    );
}

#[test]
fn jsonl_record_is_one_line() {
    let record = format_result_jsonl("x\ny\n", "\n");
    assert_eq!(record.iter().filter(|&&b| b == b'\n').count(), 1);
    assert_eq!(*record.last().unwrap(), b'\n');
}

fn run_args(print0: bool, jsonl: bool, files: &[&str]) -> CliArgs {
    CliArgs {
        all: false,
        print0,
        jsonl,
        files: files.iter().map(|f| f.to_string()).collect(),
    }
}

#[test]
fn strategy_follows_options_and_file_count() {
    assert_eq!(
        OutputStrategy::for_args(&run_args(false, false, &["a"])),
        OutputStrategy::Human(OutputScope::SingleFile)
    );
    assert_eq!(
        OutputStrategy::for_args(&run_args(false, false, &["a", "b"])),
        OutputStrategy::Human(OutputScope::MultiFile)
    );
    assert_eq!(
        OutputStrategy::for_args(&run_args(true, false, &["a"])),
        OutputStrategy::Print0(OutputScope::SingleFile)
    );
    assert_eq!(
        OutputStrategy::for_args(&run_args(true, false, &["a", "b", "c"])),
        OutputStrategy::Print0(OutputScope::MultiFile)
    );
    assert_eq!(
        OutputStrategy::for_args(&run_args(false, true, &["a"])),
        OutputStrategy::JsonL
    );
}

#[test]
fn records_of_each_strategy() {
    assert_eq!(
        OutputStrategy::Human(OutputScope::SingleFile).record("f", "u"),
        b"u\n".to_vec()
    );
    assert_eq!(
        OutputStrategy::Human(OutputScope::MultiFile).record("f", "u"),
        b"f: u\n".to_vec()
    );
    assert_eq!(
        OutputStrategy::Print0(OutputScope::SingleFile).record("f", "u"),
        b"u\0".to_vec()
    );
    assert_eq!(
        OutputStrategy::Print0(OutputScope::MultiFile).record("f", "u"),
        b"f\0u\0".to_vec()
    );
    assert_eq!(
        OutputStrategy::JsonL.record("f", "u"),
        b"{\"file\":\"f\",\"origin\":\"u\"}\n".to_vec()
    );
}
