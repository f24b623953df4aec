use vstd::prelude::*;

verus! {

/// The text printed by `--help`, and after a command-line error.
pub const USAGE: &'static str = "usage: wherefrom [--all] [--print0|--jsonl] file ...

Display file origin URL(s) from Spotlight metadata.

Options:
  -a, --all     display all origins
      --print0  print machine-readable NUL-delimited records
      --jsonl   print machine-readable JSON Lines
  -h, --help    display this help and exit
  -v, --version display version";

/// The first line of the text printed by `--version`.
pub const DIGEST: &'static str = "wherefrom: Display file origin URL(s) from Spotlight metadata.";

/// Returns the usage text.
pub fn usage() -> (text: &'static str)
    ensures
        text@ == USAGE@,
{
    USAGE
}

/// The text printed by `--version` for a package version and repository.
pub open spec fn version_text(package_version: Seq<char>, repository: Seq<char>) -> Seq<char> {
    DIGEST@ + "\nv"@ + package_version + "\n"@ + repository
}

/// Returns the version text: the digest, `v` and the package version, then
/// the repository, one per line.
pub fn version(package_version: &str, repository: &str) -> (text: String)
    ensures
        text@ == version_text(package_version@, repository@),
{
    let mut text = DIGEST.to_owned();
    text.append("\nv");
    text.append(package_version);
    text.append("\n");
    text.append(repository);
    text
}

/// The message for a file whose metadata could not be read.
pub open spec fn lookup_error_text(file: Seq<char>, reason: Seq<char>) -> Seq<char> {
    "wherefrom: "@ + file + ": "@ + reason
}

/// Formats the message printed when a file's metadata cannot be read.
pub fn lookup_error_message(file: &str, reason: &str) -> (message: String)
    ensures
        message@ == lookup_error_text(file@, reason@),
{
    let mut message = "wherefrom: ".to_owned();
    message.append(file);
    message.append(": ");
    message.append(reason);
    message
}

/// The message for output that could not be written.
pub open spec fn write_error_text(reason: Seq<char>) -> Seq<char> {
    "wherefrom: failed to write output: "@ + reason
}

/// Formats the message printed when writing the output fails.
pub fn write_error_message(reason: &str) -> (message: String)
    ensures
        message@ == write_error_text(reason@),
{
    let mut message = "wherefrom: failed to write output: ".to_owned();
    message.append(reason);
    message
}

} // verus!
