use wherefrom::cli::{lookup_error_message, usage, version, write_error_message};

#[test]
fn usage_starts_with_synopsis() {
    assert!(usage().starts_with("usage: wherefrom [--all] [--print0|--jsonl] file ...\n"));
    assert!(usage().ends_with("  -v, --version display version"));
}

#[test]
fn version_text_has_digest_version_and_repository() {
    assert_eq!(
        version("1.2.3", "https://github.com/joshleaves/wherefrom"),
        "wherefrom: Display file origin URL(s) from Spotlight metadata.\nv1.2.3\nhttps://github.com/joshleaves/wherefrom"
    );
}

#[test]
fn error_messages() {
    assert_eq!(
        lookup_error_message("a.jpg", "No such file or directory"),
        "wherefrom: a.jpg: No such file or directory"
    );
    assert_eq!(
        write_error_message("disk full"),
        "wherefrom: failed to write output: disk full"
    );
}
