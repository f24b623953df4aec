use vstd::prelude::*;
use vstd::utf8::encode_utf8;

use crate::parser::CliArgs;

verus! {

/// How many origins `origin_limit` allows for a file with `total` origins.
pub open spec fn spec_origin_limit(total: int, all: bool) -> int {
    if all {
        total
    } else if total < 1 {
        total
    } else {
        1
    }
}

/// Returns the number of origins to print for a file: all of them with
/// `all`, otherwise at most one.
pub fn origin_limit(total: isize, all: bool) -> (limit: isize)
    ensures
        limit == spec_origin_limit(total as int, all),
{
    if all {
        total
    } else if total < 1 {
        total
    } else {
        1
    }
}

/// The human-readable line for one origin (without its line break).
pub open spec fn result_text(single_file: bool, file: Seq<char>, origin: Seq<char>) -> Seq<char> {
    if single_file {
        origin
    } else {
        file + ": "@ + origin
    }
}

/// Formats one output line for a resolved origin.
///
/// For single-file invocations, only the origin is returned. For multi-file
/// invocations, the result is prefixed with `path: `.
pub fn format_result(single_file: bool, file: &str, origin: &str) -> (line: String)
    ensures
        line@ == result_text(single_file, file@, origin@),
{
    if single_file {
        origin.to_owned()
    } else {
        let mut line = file.to_owned();
        line.append(": ");
        line.append(origin);
        line
    }
}

/// The `--print0` record for one origin.
pub open spec fn print0_record(single_file: bool, file: Seq<char>, origin: Seq<char>) -> Seq<u8> {
    if single_file {
        encode_utf8(origin).push(0)
    } else {
        encode_utf8(file).push(0) + encode_utf8(origin).push(0)
    }
}

/// Formats one output record for `--print0`.
///
/// Single-file mode emits `origin\0`.
/// Multi-file mode emits `path\0origin\0`.
pub fn format_result_print0(single_file: bool, file: &str, origin: &str) -> (record: Vec<u8>)
    ensures
        record@ == print0_record(single_file, file@, origin@),
{
    if single_file {
        let mut out = origin.as_bytes_vec();
        out.push(0);
        out
    } else {
        let mut out = file.as_bytes_vec();
        out.push(0);
        let mut rest = origin.as_bytes_vec();
        out.append(&mut rest);
        out.push(0);
        out
    }
}

/// The lower-case hexadecimal digit (as an ASCII byte) for `n < 16`.
pub open spec fn hex_digit(n: u8) -> u8 {
    if n < 10 {
        (0x30 + n) as u8
    } else {
        (0x61 + n - 10) as u8
    }
}

/// How JSON writes one byte of a string's UTF-8 encoding: `"` and `\` and
/// the control characters below 0x20 are escaped, every other byte stands
/// for itself (bytes of multi-byte characters are all 0x80 or above).
pub open spec fn json_escape_byte(b: u8) -> Seq<u8> {
    if b == 0x22 {
        seq![0x5Cu8, 0x22u8]
    } else if b == 0x5C {
        seq![0x5Cu8, 0x5Cu8]
    } else if b == 0x08 {
        seq![0x5Cu8, 0x62u8]
    } else if b == 0x0C {
        seq![0x5Cu8, 0x66u8]
    } else if b == 0x0A {
        seq![0x5Cu8, 0x6Eu8]
    } else if b == 0x0D {
        seq![0x5Cu8, 0x72u8]
    } else if b == 0x09 {
        seq![0x5Cu8, 0x74u8]
    } else if b < 0x20 {
        seq![0x5Cu8, 0x75u8, 0x30u8, 0x30u8, hex_digit(b / 16), hex_digit(b % 16)]
    } else {
        seq![b]
    }
}

/// The JSON string body (without quotes) for the UTF-8 bytes `bytes`.
pub open spec fn json_escape(bytes: Seq<u8>) -> Seq<u8>
    decreases bytes.len(),
{
    if bytes.len() == 0 {
        Seq::empty()
    } else {
        json_escape(bytes.drop_last()) + json_escape_byte(bytes.last())
    }
}

/// The `--jsonl` record for one origin: `{"file":"...","origin":"..."}` and a
/// line break.
pub open spec fn jsonl_record(file: Seq<char>, origin: Seq<char>) -> Seq<u8> {
    encode_utf8("{\"file\":\""@) + json_escape(encode_utf8(file)) + encode_utf8("\",\"origin\":\""@)
        + json_escape(encode_utf8(origin)) + encode_utf8("\"}\n"@)
}

/// The escaped form of one byte.
fn escaped_byte(b: u8) -> (out: Vec<u8>)
    ensures
        out@ == json_escape_byte(b),
{
    let out = if b == 0x22 {
        vec![0x5Cu8, 0x22u8]
    } else if b == 0x5C {
        vec![0x5Cu8, 0x5Cu8]
    } else if b == 0x08 {
        vec![0x5Cu8, 0x62u8]
    } else if b == 0x0C {
        vec![0x5Cu8, 0x66u8]
    } else if b == 0x0A {
        vec![0x5Cu8, 0x6Eu8]
    } else if b == 0x0D {
        vec![0x5Cu8, 0x72u8]
    } else if b == 0x09 {
        vec![0x5Cu8, 0x74u8]
    } else if b < 0x20 {
        let high = b / 16;
        let low = b % 16;
        let high_digit = if high < 10 { 0x30 + high } else { 0x61 + high - 10 };
        let low_digit = if low < 10 { 0x30 + low } else { 0x61 + low - 10 };
        vec![0x5Cu8, 0x75u8, 0x30u8, 0x30u8, high_digit, low_digit]
    } else {
        vec![b]
    };
    assert(out@ =~= json_escape_byte(b));
    out
}

/// Appends the JSON string body of `text` to `out`.
fn push_json_escaped(out: &mut Vec<u8>, text: &str)
    ensures
        final(out)@ == old(out)@ + json_escape(encode_utf8(text@)),
{
    let bytes = text.as_bytes();
    let ghost start = out@;
    let mut i: usize = 0;
    while i < bytes.len()
        invariant
            0 <= i <= bytes@.len(),
            bytes@ == encode_utf8(text@),
            out@ == start + json_escape(bytes@.take(i as int)),
        decreases bytes@.len() - i,
    {
        let mut piece = escaped_byte(bytes[i]);
        out.append(&mut piece);
        proof {
            assert(bytes@.take(i + 1).drop_last() =~= bytes@.take(i as int));
            assert(bytes@.take(i + 1).last() == bytes@[i as int]);
        }
        i += 1;
    }
    proof {
        assert(bytes@.take(i as int) =~= bytes@);
    }
}

/// Formats one output record for `--jsonl`.
pub fn format_result_jsonl(file: &str, origin: &str) -> (record: Vec<u8>)
    ensures
        record@ == jsonl_record(file@, origin@),
{
    let mut out = "{\"file\":\"".as_bytes_vec();
    push_json_escaped(&mut out, file);
    let mut middle = "\",\"origin\":\"".as_bytes_vec();
    out.append(&mut middle);
    push_json_escaped(&mut out, origin);
    let mut end = "\"}\n".as_bytes_vec();
    out.append(&mut end);
    out
}

/// Whether the output speaks of one file or of several.
#[derive(Clone, Copy, Debug, PartialEq, Eq, Structural)]
pub enum OutputScope {
    /// One file was given: records carry the origin only.
    SingleFile,
    /// Several files were given: records carry the file too.
    MultiFile,
}

/// The output format of a run.
#[derive(Clone, Copy, Debug, PartialEq, Eq, Structural)]
pub enum OutputStrategy {
    /// One line per origin, `origin` or `path: origin`.
    Human(OutputScope),
    /// NUL-delimited records, `origin\0` or `path\0origin\0`.
    Print0(OutputScope),
    /// One JSON object per line.
    JsonL,
}

/// The output format that a run with these options and this many files uses.
pub open spec fn spec_strategy(print0: bool, jsonl: bool, file_count: nat) -> OutputStrategy {
    let scope = if file_count == 1 { OutputScope::SingleFile } else { OutputScope::MultiFile };
    if print0 {
        OutputStrategy::Print0(scope)
    } else if jsonl {
        OutputStrategy::JsonL
    } else {
        OutputStrategy::Human(scope)
    }
}

/// The bytes written for one origin of `file` in the format `strategy`.
pub open spec fn record_bytes(strategy: OutputStrategy, file: Seq<char>, origin: Seq<char>) -> Seq<u8> {
    match strategy {
        OutputStrategy::Human(scope) => encode_utf8(
            result_text(scope == OutputScope::SingleFile, file, origin),
        ).push(0x0Au8),
        OutputStrategy::Print0(scope) => print0_record(scope == OutputScope::SingleFile, file, origin),
        OutputStrategy::JsonL => jsonl_record(file, origin),
    }
}

impl OutputStrategy {
    /// The output format that the parsed arguments ask for.
    pub fn for_args(args: &CliArgs) -> (strategy: OutputStrategy)
        ensures
            strategy == spec_strategy(args.print0, args.jsonl, args.files@.len()),
    {
        let scope = if args.files.len() == 1 {
            OutputScope::SingleFile
        } else {
            OutputScope::MultiFile
        };
        if args.print0 {
            OutputStrategy::Print0(scope)
        } else if args.jsonl {
            OutputStrategy::JsonL
        } else {
            OutputStrategy::Human(scope)
        }
    }

    /// The bytes to write for one origin of `file`.
    pub fn record(&self, file: &str, origin: &str) -> (bytes: Vec<u8>)
        ensures
            bytes@ == record_bytes(*self, file@, origin@),
    {
        match self {
            OutputStrategy::Human(scope) => {
                let line = format_result(*scope == OutputScope::SingleFile, file, origin);
                let mut out = line.as_str().as_bytes_vec();
                out.push(0x0A);
                out
            },
            OutputStrategy::Print0(scope) => format_result_print0(
                *scope == OutputScope::SingleFile,
                file,
                origin,
            ),
            OutputStrategy::JsonL => format_result_jsonl(file, origin),
        }
    }
}

/// Law: without `--all` at most one origin is printed, with it every one;
/// the limit never exceeds the number of origins there are.
pub proof fn law_origin_limit(total: int, all: bool)
    requires
        total >= 0,
    ensures
        0 <= spec_origin_limit(total, all) <= total,
        all ==> spec_origin_limit(total, all) == total,
        !all ==> spec_origin_limit(total, all) == if total == 0 { 0int } else { 1int },
{
}

/// Law: a multi-file line is the file, `": "`, then the single-file line.
pub proof fn law_multi_file_line(file: Seq<char>, origin: Seq<char>)
    ensures
        result_text(false, file, origin) == file + ": "@ + result_text(true, file, origin),
        result_text(true, file, origin) == origin,
{
}

/// Law: a multi-file `--print0` record is the path and a NUL, then the
/// single-file record.
pub proof fn law_print0_multi_file(file: Seq<char>, origin: Seq<char>)
    ensures
        print0_record(false, file, origin) == encode_utf8(file).push(0) + print0_record(true, file, origin),
{
}

/// The UTF-8 encoding of a non-NUL character holds no zero byte.
proof fn lemma_encode_scalar_no_nul(c: char)
    requires
        c != '\0',
    ensures
        forall|j: int|
            0 <= j < vstd::utf8::encode_scalar(c as u32).len() ==> #[trigger] vstd::utf8::encode_scalar(c as u32)[j] != 0,
{
    let v = c as u32;
    assert(1 <= v <= 0x7F ==> (v & 0x7F) as u8 != 0) by (bit_vector);
    assert((0xC0u8 | ((v >> 6) & 0x1F) as u8) != 0) by (bit_vector);
    assert((0xE0u8 | ((v >> 12) & 0x0F) as u8) != 0) by (bit_vector);
    assert((0xF0u8 | ((v >> 18) & 0x7) as u8) != 0) by (bit_vector);
    assert((0x80u8 | (v & 0x3F) as u8) != 0) by (bit_vector);
    assert((0x80u8 | ((v >> 6) & 0x3F) as u8) != 0) by (bit_vector);
    assert((0x80u8 | ((v >> 12) & 0x3F) as u8) != 0) by (bit_vector);
    assert(v != 0);
}

/// A text without NUL characters encodes to bytes without a zero byte.
pub proof fn lemma_encode_utf8_no_nul(text: Seq<char>)
    requires
        forall|i: int| 0 <= i < text.len() ==> text[i] != '\0',
    ensures
        forall|j: int| 0 <= j < encode_utf8(text).len() ==> encode_utf8(text)[j] != 0,
    decreases text.len(),
{
    if text.len() > 0 {
        let first = vstd::utf8::encode_scalar(text[0] as u32);
        lemma_encode_scalar_no_nul(text[0]);
        lemma_encode_utf8_no_nul(text.drop_first());
        let e = encode_utf8(text);
        assert(e == first + encode_utf8(text.drop_first()));
        assert forall|j: int| 0 <= j < e.len() implies e[j] != 0 by {
            if j < first.len() {
                assert(e[j] == first[j]);
            } else {
                assert(e[j] == encode_utf8(text.drop_first())[j - first.len()]);
            }
        }
    }
}

/// Law: a multi-file `--print0` record can be split back: when the path has
/// no NUL character (no path can), the path is exactly the bytes before the
/// first NUL, and the origin is what lies between it and the closing NUL.
pub proof fn law_print0_record_splits(file: Seq<char>, origin: Seq<char>)
    requires
        forall|i: int| 0 <= i < file.len() ==> file[i] != '\0',
    ensures
        ({
            let record = print0_record(false, file, origin);
            let k = encode_utf8(file).len() as int;
            &&& record.subrange(0, k) == encode_utf8(file)
            &&& record[k] == 0
            &&& forall|j: int| 0 <= j < k ==> record[j] != 0
            &&& record.subrange(k + 1, record.len() - 1) == encode_utf8(origin)
            &&& record.last() == 0
        }),
{
    lemma_encode_utf8_no_nul(file);
    let record = print0_record(false, file, origin);
    let k = encode_utf8(file).len() as int;
    assert(record.subrange(0, k) =~= encode_utf8(file));
    assert(record.subrange(k + 1, record.len() - 1) =~= encode_utf8(origin));
    assert forall|j: int| 0 <= j < k implies record[j] != 0 by {
        assert(record[j] == encode_utf8(file)[j]);
    }
}

/// No escaped byte is a line break.
proof fn lemma_json_escape_no_newline(bytes: Seq<u8>)
    ensures
        forall|j: int| 0 <= j < json_escape(bytes).len() ==> json_escape(bytes)[j] != 0x0A,
    decreases bytes.len(),
{
    if bytes.len() > 0 {
        lemma_json_escape_no_newline(bytes.drop_last());
        let b = bytes.last();
        let e = json_escape(bytes);
        let front = json_escape(bytes.drop_last());
        let piece = json_escape_byte(b);
        if b < 0x20 {
            assert(b / 16 < 2);
        }
        assert forall|j: int| 0 <= j < piece.len() implies piece[j] != 0x0A by {}
        assert forall|j: int| 0 <= j < e.len() implies e[j] != 0x0A by {
            if j < front.len() {
                assert(e[j] == front[j]);
            } else {
                assert(e[j] == piece[j - front.len()]);
            }
        }
    }
}

/// Law: every `--jsonl` record is exactly one line: it ends with a line
/// break and holds no other, whatever the file name and origin hold.
pub proof fn law_jsonl_one_line(file: Seq<char>, origin: Seq<char>)
    ensures
        jsonl_record(file, origin).len() > 0,
        jsonl_record(file, origin).last() == 0x0Au8,
        forall|j: int|
            0 <= j < jsonl_record(file, origin).len() - 1 ==> jsonl_record(file, origin)[j] != 0x0Au8,
{
    reveal_strlit("{\"file\":\"");
    reveal_strlit("\",\"origin\":\"");
    reveal_strlit("\"}\n");
    let p1 = "{\"file\":\""@;
    let p2 = "\",\"origin\":\""@;
    let p3 = "\"}\n"@;
    assert(vstd::utf8::is_ascii_chars(p1));
    assert(vstd::utf8::is_ascii_chars(p2));
    assert(vstd::utf8::is_ascii_chars(p3));
    vstd::utf8::is_ascii_chars_encode_utf8(p1);
    vstd::utf8::is_ascii_chars_encode_utf8(p2);
    vstd::utf8::is_ascii_chars_encode_utf8(p3);
    let e1 = encode_utf8(p1);
    let e2 = json_escape(encode_utf8(file));
    let e3 = encode_utf8(p2);
    let e4 = json_escape(encode_utf8(origin));
    let e5 = encode_utf8(p3);
    lemma_json_escape_no_newline(encode_utf8(file));
    lemma_json_escape_no_newline(encode_utf8(origin));
    assert(e5.len() == 3 && e5[0] == 0x22u8 && e5[1] == 0x7Du8 && e5[2] == 0x0Au8);
    assert forall|j: int| 0 <= j < e1.len() implies e1[j] != 0x0Au8 by {
        assert(p1[j] as u8 == e1[j]);
    }
    assert forall|j: int| 0 <= j < e3.len() implies e3[j] != 0x0Au8 by {
        assert(p2[j] as u8 == e3[j]);
    }
    let r = jsonl_record(file, origin);
    assert(r =~= e1 + e2 + e3 + e4 + e5);
    let a = e1.len() as int;
    let b = a + e2.len();
    let c = b + e3.len();
    let d = c + e4.len();
    assert forall|j: int| 0 <= j < r.len() - 1 implies r[j] != 0x0Au8 by {
        if j < a {
            assert(r[j] == e1[j]);
        } else if j < b {
            assert(r[j] == e2[j - a]);
        } else if j < c {
            assert(r[j] == e3[j - b]);
        } else if j < d {
            assert(r[j] == e4[j - c]);
        } else {
            assert(r[j] == e5[j - d]);
        }
    }
}

/// Law: every record ends with its format's terminator: a line break for
/// human-readable and JSON Lines output, a NUL for `--print0`.
pub proof fn law_record_terminated(strategy: OutputStrategy, file: Seq<char>, origin: Seq<char>)
    ensures
        record_bytes(strategy, file, origin).len() > 0,
        record_bytes(strategy, file, origin).last() == match strategy {
            OutputStrategy::Print0(_) => 0u8,
            _ => 0x0Au8,
        },
{
    match strategy {
        OutputStrategy::JsonL => law_jsonl_one_line(file, origin),
        OutputStrategy::Print0(scope) => {
            let r = record_bytes(strategy, file, origin);
            if scope == OutputScope::MultiFile {
                let tail = encode_utf8(origin).push(0);
                assert(r == encode_utf8(file).push(0) + tail);
                assert(r.last() == tail.last());
            }
        },
        OutputStrategy::Human(_) => {},
    }
}

/// Law: `--print0` wins, then `--jsonl`, whatever the number of files;
/// otherwise the output is human-readable. The scope says whether exactly one
/// file was given.
pub proof fn law_strategy_choice(print0: bool, jsonl: bool, file_count: nat)
    ensures
        print0 ==> spec_strategy(print0, jsonl, file_count) is Print0,
        !print0 && jsonl ==> spec_strategy(print0, jsonl, file_count) == OutputStrategy::JsonL,
        !print0 && !jsonl ==> spec_strategy(print0, jsonl, file_count) is Human,
        spec_strategy(print0, jsonl, file_count) matches OutputStrategy::Print0(scope) ==> (scope
            == OutputScope::SingleFile <==> file_count == 1),
        spec_strategy(print0, jsonl, file_count) matches OutputStrategy::Human(scope) ==> (scope
            == OutputScope::SingleFile <==> file_count == 1),
{
}

/// Law: a human-readable record is a line of valid UTF-8 text and a line
/// break; the text reads back as the origin alone for one file, and as the
/// file, `": "` and the origin for several.
pub proof fn law_human_record_text(scope: OutputScope, file: Seq<char>, origin: Seq<char>)
    ensures
        ({
            let record = record_bytes(OutputStrategy::Human(scope), file, origin);
            &&& record.len() > 0
            &&& record.last() == 0x0Au8
            &&& vstd::utf8::valid_utf8(record.drop_last())
            &&& vstd::utf8::decode_utf8(record.drop_last()) == if scope == OutputScope::SingleFile {
                origin
            } else {
                file + ": "@ + origin
            }
        }),
{
    broadcast use vstd::utf8::encode_utf8_decode_utf8, vstd::utf8::encode_utf8_valid_utf8;

    let text = result_text(scope == OutputScope::SingleFile, file, origin);
    let record = record_bytes(OutputStrategy::Human(scope), file, origin);
    assert(record.drop_last() =~= encode_utf8(text));
}

/// The value of an ASCII hexadecimal digit, either case.
pub open spec fn hex_value(d: u8) -> Option<int> {
    if 0x30 <= d <= 0x39 {
        Some(d - 0x30)
    } else if 0x61 <= d <= 0x66 {
        Some(d - 0x61 + 10)
    } else if 0x41 <= d <= 0x46 {
        Some(d - 0x41 + 10)
    } else {
        None
    }
}

/// The byte that a two-character JSON escape `\c` stands for.
pub open spec fn short_escape(c: u8) -> Option<u8> {
    if c == 0x22 {
        Some(0x22u8)
    } else if c == 0x5C {
        Some(0x5Cu8)
    } else if c == 0x2F {
        Some(0x2Fu8)
    } else if c == 0x62 {
        Some(0x08u8)
    } else if c == 0x66 {
        Some(0x0Cu8)
    } else if c == 0x6E {
        Some(0x0Au8)
    } else if c == 0x72 {
        Some(0x0Du8)
    } else if c == 0x74 {
        Some(0x09u8)
    } else {
        None
    }
}

/// How a JSON reader decodes the body of a string (the bytes between its
/// quotes), as far as escapes of single bytes go: `None` where the body is
/// not valid JSON (a raw `"` or control character, or an unknown escape),
/// and also for a `\u` escape of a code point above 0x7F, which this reader
/// leaves out.
pub open spec fn json_unescape(body: Seq<u8>) -> Option<Seq<u8>>
    decreases body.len(),
{
    if body.len() == 0 {
        Some(Seq::empty())
    } else if body[0] == 0x5C {
        if body.len() >= 2 && short_escape(body[1]) is Some {
            match json_unescape(body.subrange(2, body.len() as int)) {
                Some(r) => Some(seq![short_escape(body[1])->0] + r),
                None => None,
            }
        } else if body.len() >= 6 && body[1] == 0x75 && hex_value(body[2]) is Some && hex_value(
            body[3],
        ) is Some && hex_value(body[4]) is Some && hex_value(body[5]) is Some {
            let v = 4096 * hex_value(body[2])->0 + 256 * hex_value(body[3])->0 + 16 * hex_value(
                body[4],
            )->0 + hex_value(body[5])->0;
            if v < 0x80 {
                match json_unescape(body.subrange(6, body.len() as int)) {
                    Some(r) => Some(seq![v as u8] + r),
                    None => None,
                }
            } else {
                None
            }
        } else {
            None
        }
    } else if body[0] == 0x22 || body[0] < 0x20 {
        None
    } else {
        match json_unescape(body.drop_first()) {
            Some(r) => Some(seq![body[0]] + r),
            None => None,
        }
    }
}

/// Escaping distributes over concatenation.
proof fn lemma_json_escape_concat(a: Seq<u8>, b: Seq<u8>)
    ensures
        json_escape(a + b) == json_escape(a) + json_escape(b),
    decreases b.len(),
{
    if b.len() == 0 {
        assert(a + b =~= a);
        assert(json_escape(a) + json_escape(b) =~= json_escape(a));
    } else {
        lemma_json_escape_concat(a, b.drop_last());
        assert((a + b).drop_last() =~= a + b.drop_last());
        assert((a + b).last() == b.last());
        assert(json_escape(a) + json_escape(b) =~= json_escape(a) + json_escape(b.drop_last())
            + json_escape_byte(b.last()));
    }
}

/// Decoding the escape of one byte, followed by more, gives that byte first.
proof fn lemma_unescape_byte(b: u8, rest: Seq<u8>)
    ensures
        json_unescape(json_escape_byte(b) + rest) == match json_unescape(rest) {
            Some(r) => Some(seq![b] + r),
            None => None::<Seq<u8>>,
        },
{
    let piece = json_escape_byte(b);
    let body = piece + rest;
    if piece.len() == 2 {
        assert(body.subrange(2, body.len() as int) =~= rest);
    } else if piece.len() == 6 {
        assert(body.subrange(6, body.len() as int) =~= rest);
        assert(b < 0x20);
        let hi = b / 16;
        let lo = b % 16;
        assert(hi < 2);
        assert(hex_value(hex_digit(hi)) == Some(hi as int));
        assert(hex_value(hex_digit(lo)) == Some(lo as int));
        assert(hex_value(0x30u8) == Some(0int));
        assert(4096 * 0 + 256 * 0 + 16 * (hi as int) + (lo as int) == b as int);
    } else {
        assert(body.drop_first() =~= rest);
    }
}

/// Law: escaping is undone by a JSON reader: the escaped body of any bytes
/// decodes back to exactly those bytes, so it is a valid JSON string body.
pub proof fn law_json_escape_round_trip(bytes: Seq<u8>)
    ensures
        json_unescape(json_escape(bytes)) == Some(bytes),
    decreases bytes.len(),
{
    if bytes.len() > 0 {
        let first = bytes[0];
        let rest = bytes.drop_first();
        assert(bytes =~= seq![first] + rest);
        lemma_json_escape_concat(seq![first], rest);
        assert(seq![first].drop_last() =~= Seq::<u8>::empty());
        assert(seq![first].last() == first);
        assert(json_escape(Seq::<u8>::empty()) == Seq::<u8>::empty());
        assert(json_escape(seq![first]) =~= json_escape_byte(first));
        law_json_escape_round_trip(rest);
        lemma_unescape_byte(first, json_escape(rest));
        assert(seq![first] + rest =~= bytes);
    }
}

/// Law: only `"`, `\` and control characters are escaped, each with an
/// escape that JSON defines; every other byte, including each byte of a
/// multi-byte character, is written as itself.
pub proof fn law_json_escape_minimal(b: u8)
    ensures
        b >= 0x20 && b != 0x22 && b != 0x5C ==> json_escape_byte(b) == seq![b],
        json_unescape(json_escape_byte(b)) == Some(seq![b]),
{
    lemma_unescape_byte(b, Seq::empty());
    assert(json_escape_byte(b) + Seq::<u8>::empty() =~= json_escape_byte(b));
    assert(seq![b] + Seq::<u8>::empty() =~= seq![b]);
}

/// Law: the escaped file name and origin in a `--jsonl` record decode to the
/// UTF-8 text of the file name and of the origin.
pub proof fn law_jsonl_fields_read_back(text: Seq<char>)
    ensures
        json_unescape(json_escape(encode_utf8(text))) matches Some(bytes) && vstd::utf8::decode_utf8(
            bytes,
        ) == text,
{
    broadcast use vstd::utf8::encode_utf8_decode_utf8;

    law_json_escape_round_trip(encode_utf8(text));
}

/// Law: a `--jsonl` record is the object `{"file":"…","origin":"…"}` and a
/// line break, where the two string bodies decode to the UTF-8 text of the
/// file name and of the origin.
pub proof fn law_jsonl_record_shape(file: Seq<char>, origin: Seq<char>)
    ensures
        exists|f: Seq<u8>, o: Seq<u8>|
            {
                &&& jsonl_record(file, origin) == encode_utf8("{\"file\":\""@) + f + encode_utf8(
                    "\",\"origin\":\""@,
                ) + o + encode_utf8("\"}\n"@)
                &&& #[trigger] json_unescape(f) == Some(encode_utf8(file))
                &&& #[trigger] json_unescape(o) == Some(encode_utf8(origin))
            },
{
    let f = json_escape(encode_utf8(file));
    let o = json_escape(encode_utf8(origin));
    law_json_escape_round_trip(encode_utf8(file));
    law_json_escape_round_trip(encode_utf8(origin));
    assert(jsonl_record(file, origin) == encode_utf8("{\"file\":\""@) + f + encode_utf8(
        "\",\"origin\":\""@,
    ) + o + encode_utf8("\"}\n"@));
}

/// Law: a single-file `--print0` record is the origin's UTF-8 text and a NUL.
pub proof fn law_print0_single_reads_back(file: Seq<char>, origin: Seq<char>)
    ensures
        print0_record(true, file, origin).last() == 0u8,
        vstd::utf8::decode_utf8(print0_record(true, file, origin).drop_last()) == origin,
{
    broadcast use vstd::utf8::encode_utf8_decode_utf8;

    assert(print0_record(true, file, origin).drop_last() =~= encode_utf8(origin));
}

} // verus!
