//! Where commands and file operations run: paths, streams of bytes, shells and
//! their environment, and what a command comes to.

use vstd::prelude::*;
use vstd::utf8::{decode_utf8, valid_utf8};

use crate::harness_types::{
    CreateTempFileOptions, ExecutionError, ExecutionErrorCode, FileError, FileErrorCode,
    FileErrorView, FileInfo, FileKind, ShellExecResult,
};
use crate::text::{
    begins_with, chars_of, concat2, concat3, find_from, has_prefix, join, join_texts, lossy_text,
    replace_char, replace_char_text, same_text, split, split_text, string_of, substring,
    text_of_bytes, text_of_option, texts, trim, trim_end, trim_end_of, trim_text,
};
use crate::types::JsF64;

verus! {

// ---------------------------------------------------------------------------
// Paths
// ---------------------------------------------------------------------------

/// The value of a hexadecimal digit.
pub open spec fn hex_digit(b: u8) -> Option<u8> {
    if 0x30 <= b <= 0x39 {
        Some((b - 0x30) as u8)
    } else if 0x61 <= b <= 0x66 {
        Some((b - 0x61 + 10) as u8)
    } else if 0x41 <= b <= 0x46 {
        Some((b - 0x41 + 10) as u8)
    } else {
        None
    }
}

/// The number that two characters spell in base sixteen, where a plus sign may
/// stand in front of a single digit.
pub open spec fn hex_pair(a: u8, b: u8) -> Option<u8> {
    if a == 0x2b {
        hex_digit(b)
    } else {
        hex_digits(a, b)
    }
}

/// The number that two digits spell in base sixteen.
pub open spec fn hex_digits(a: u8, b: u8) -> Option<u8> {
    match (hex_digit(a), hex_digit(b)) {
        (Some(x), Some(y)) => Some((16 * x + y) as u8),
        _ => None,
    }
}

/// The bytes that a percent-encoded text stands for.
pub open spec fn percent_decoded(bytes: Seq<u8>) -> Seq<u8>
    decreases bytes.len(),
{
    if bytes.len() == 0 {
        Seq::empty()
    } else if bytes[0] == 0x25 && bytes.len() > 2 && hex_pair(bytes[1], bytes[2]) is Some {
        seq![hex_pair(bytes[1], bytes[2])->0] + percent_decoded(bytes.skip(3))
    } else {
        seq![bytes[0]] + percent_decoded(bytes.skip(1))
    }
}

/// Whether a text is what valid bytes encode; of other bytes nothing is asked.
pub open spec fn decodes_to(bytes: Seq<u8>, text: Seq<char>) -> bool {
    valid_utf8(bytes) ==> text == decode_utf8(bytes)
}

fn read_hex_digit(b: u8) -> (r: Option<u8>)
    ensures
        r == hex_digit(b),
{
    if 0x30 <= b && b <= 0x39 {
        Some(b - 0x30)
    } else if 0x61 <= b && b <= 0x66 {
        Some(b - 0x61 + 10)
    } else if 0x41 <= b && b <= 0x46 {
        Some(b - 0x41 + 10)
    } else {
        None
    }
}

fn read_hex_pair(a: u8, b: u8) -> (r: Option<u8>)
    ensures
        r == hex_pair(a, b),
{
    if a == 0x2b {
        return read_hex_digit(b);
    }
    match (read_hex_digit(a), read_hex_digit(b)) {
        (Some(x), Some(y)) => Some(16 * x + y),
        _ => None,
    }
}

/// The text that a percent-encoded text stands for. Where its bytes are no valid
/// text, what is not valid is replaced.
pub fn percent_decode(input: &str) -> (r: String)
    ensures
        r@ == lossy_text(percent_decoded(vstd::utf8::encode_utf8(input@))),
        decodes_to(percent_decoded(vstd::utf8::encode_utf8(input@)), r@),
{
    let bytes: &[u8] = input.as_bytes();
    let ghost all = bytes@;
    let n: usize = bytes.len();
    let mut out: Vec<u8> = Vec::new();
    let mut i: usize = 0;
    proof {
        assert(all.skip(0) =~= all);
        assert(out@ + percent_decoded(all) =~= percent_decoded(all));
    }
    while i < n
        invariant
            i <= n == all.len(),
            bytes@ == all,
            out@ + percent_decoded(all.skip(i as int)) == percent_decoded(all),
        decreases n - i,
    {
        let ghost rest = all.skip(i as int);
        let ghost before = out@;
        let mut taken: bool = false;
        if bytes[i] == 0x25 && n - i > 2 {
            match read_hex_pair(bytes[i + 1], bytes[i + 2]) {
                Some(byte) => {
                    out.push(byte);
                    i = i + 3;
                    taken = true;
                },
                None => {},
            }
        }
        if !taken {
            out.push(bytes[i]);
            i = i + 1;
        }
        proof {
            assert(all.skip(i as int) =~= rest.skip(if taken {
                3int
            } else {
                1int
            }));
            assert(out@ =~= before + seq![out@.last()]);
            assert(out@ + percent_decoded(all.skip(i as int)) =~= before + percent_decoded(rest));
        }
    }
    proof {
        assert(all.skip(n as int) =~= Seq::<u8>::empty());
        assert(out@ + Seq::<u8>::empty() =~= out@);
    }
    text_of_bytes(out.as_slice())
}

/// The encoded path of a file URL. Its host is missing or the local one.
pub open spec fn url_path(url: Seq<char>) -> Option<Seq<char>> {
    if !begins_with(url, "file://"@) {
        None
    } else {
        let rest = url.skip(7);
        if begins_with(rest, "/"@) {
            Some(rest)
        } else if begins_with(rest, "localhost/"@) {
            Some(rest.skip(9))
        } else {
            None
        }
    }
}

/// The path of a file URL; none for a text that is no such URL.
pub fn file_url_to_path(url: &str) -> (r: Option<String>)
    ensures
        match url_path(url@) {
            Some(path) => {
                let bytes = percent_decoded(vstd::utf8::encode_utf8(path));
                r matches Some(text) && text@ == lossy_text(bytes) && decodes_to(bytes, text@)
            },
            None => r is None,
        },
{
    proof {
        reveal_strlit("file://");
        reveal_strlit("/");
        reveal_strlit("localhost/");
    }
    if !has_prefix(url, "file://") {
        return None;
    }
    let n: usize = url.unicode_len();
    proof {
        assert(url@.subrange(7, n as int) =~= url@.skip(7));
    }
    let rest: String = substring(url, 7, n);
    if has_prefix(rest.as_str(), "/") {
        Some(percent_decode(rest.as_str()))
    } else if has_prefix(rest.as_str(), "localhost/") {
        let m: usize = rest.as_str().unicode_len();
        proof {
            assert(rest@.subrange(9, m as int) =~= rest@.skip(9));
        }
        let path: String = substring(rest.as_str(), 9, m);
        Some(percent_decode(path.as_str()))
    } else {
        None
    }
}

/// The text of a file. Where its bytes are no valid text, what is not valid is
/// replaced.
pub fn text_of_file(bytes: &[u8]) -> (r: String)
    ensures
        r@ == lossy_text(bytes@),
        decodes_to(bytes@, r@),
{
    text_of_bytes(bytes)
}

/// A path joined to another: an absolute one takes its place.
pub open spec fn joined_path(base: Seq<char>, path: Seq<char>) -> Seq<char> {
    if begins_with(path, "/"@) || base.len() == 0 {
        path
    } else if base.last() == '/' {
        base + path
    } else {
        base + "/"@ + path
    }
}

/// A path joined to another: an absolute one takes its place.
pub fn join_two(base: &str, path: &str) -> (r: String)
    ensures
        r@ == joined_path(base@, path@),
{
    let n: usize = base.unicode_len();
    if has_prefix(path, "/") || n == 0 {
        path.to_string()
    } else if base.get_char(n - 1) == '/' {
        concat2(base, path)
    } else {
        concat3(base, "/", path)
    }
}

/// Paths joined one after the other.
pub open spec fn joined_paths(parts: Seq<Seq<char>>) -> Seq<char>
    decreases parts.len(),
{
    if parts.len() == 0 {
        Seq::empty()
    } else {
        joined_path(joined_paths(parts.drop_last()), parts.last())
    }
}

/// Paths joined one after the other.
pub fn join_path(parts: &[String]) -> (r: String)
    ensures
        r@ == joined_paths(texts(parts@)),
{
    let ghost all = texts(parts@);
    let mut joined: String = String::new();
    let mut i: usize = 0;
    proof {
        assert(all.take(0) =~= Seq::<Seq<char>>::empty());
        assert(joined@ =~= Seq::<char>::empty());
    }
    while i < parts.len()
        invariant
            i <= parts@.len(),
            all == texts(parts@),
            joined@ == joined_paths(all.take(i as int)),
        decreases parts@.len() - i,
    {
        proof {
            assert(all.take(i + 1).drop_last() =~= all.take(i as int));
            assert(all.take(i + 1).last() == parts@[i as int]@);
        }
        joined = join_two(joined.as_str(), parts[i].as_str());
        i = i + 1;
    }
    proof {
        assert(all.take(all.len() as int) =~= all);
    }
    joined
}

/// The parts of a path after each is applied: `..` takes the last away, `.` and
/// empty parts change nothing.
pub open spec fn applied_parts(parts: Seq<Seq<char>>) -> Seq<Seq<char>>
    decreases parts.len(),
{
    if parts.len() == 0 {
        Seq::empty()
    } else {
        let before = applied_parts(parts.drop_last());
        let part = parts.last();
        if part.len() == 0 || part == "."@ {
            before
        } else if part == ".."@ {
            if before.len() > 0 {
                before.drop_last()
            } else {
                before
            }
        } else {
            before.push(part)
        }
    }
}

/// A path without parts that cancel out, with forward slashes.
pub open spec fn plain_path(path: Seq<char>) -> Seq<char> {
    let parts = join(applied_parts(split(path, '/')), "/"@);
    let text = if begins_with(path, "/"@) {
        "/"@ + parts
    } else {
        parts
    };
    replace_char(
        if text.len() == 0 {
            "/"@
        } else {
            text
        },
        '\\',
        "/"@,
    )
}

fn apply_parts(parts: &Vec<String>) -> (r: Vec<String>)
    ensures
        texts(r@) == applied_parts(texts(parts@)),
{
    let ghost all = texts(parts@);
    let mut out: Vec<String> = Vec::new();
    let mut i: usize = 0;
    proof {
        assert(all.take(0) =~= Seq::<Seq<char>>::empty());
        assert(texts(out@) =~= Seq::<Seq<char>>::empty());
    }
    while i < parts.len()
        invariant
            i <= parts@.len(),
            all == texts(parts@),
            texts(out@) == applied_parts(all.take(i as int)),
        decreases parts@.len() - i,
    {
        let ghost before = out@;
        proof {
            assert(all.take(i + 1).drop_last() =~= all.take(i as int));
            assert(all.take(i + 1).last() == parts@[i as int]@);
        }
        let part: &String = &parts[i];
        if part.as_str().unicode_len() == 0 || same_text(part.as_str(), ".") {
        } else if same_text(part.as_str(), "..") {
            if out.len() > 0 {
                out.pop();
                proof {
                    assert(texts(out@) =~= texts(before).drop_last());
                }
            }
        } else {
            out.push(part.clone());
            proof {
                assert(texts(out@) =~= texts(before).push(part@));
            }
        }
        i = i + 1;
    }
    proof {
        assert(all.take(all.len() as int) =~= all);
    }
    out
}

/// A path without parts that cancel out, with forward slashes. Links are not
/// followed.
pub fn normalize_absolute(path: &str) -> (r: String)
    ensures
        r@ == plain_path(path@),
{
    let parts: Vec<String> = split_text(path, '/');
    let kept: Vec<String> = apply_parts(&parts);
    let joined: String = join_texts(kept.as_slice(), "/");
    let text: String = if has_prefix(path, "/") {
        concat2("/", joined.as_str())
    } else {
        joined
    };
    if text.as_str().unicode_len() == 0 {
        replace_char_text("/", '\\', "/")
    } else {
        replace_char_text(text.as_str(), '\\', "/")
    }
}

/// A path with the home directory and file URLs made ordinary paths. `url` is
/// the path of a file URL.
pub open spec fn spelled_out(path: Seq<char>, home: Seq<char>, url: Option<Seq<char>>) -> Seq<char> {
    if path == "~"@ {
        home
    } else if begins_with(path, "~/"@) || begins_with(path, "~\\"@) {
        joined_path(home, path.skip(2))
    } else {
        match url {
            Some(text) => text,
            None => path,
        }
    }
}

/// The path that a file URL stands for, if a text is one.
pub open spec fn url_text(path: Seq<char>) -> Option<Seq<char>> {
    match url_path(path) {
        Some(encoded) => Some(lossy_text(percent_decoded(vstd::utf8::encode_utf8(encoded)))),
        None => None,
    }
}

/// A path made absolute from a working directory.
pub open spec fn resolved_path(cwd: Seq<char>, path: Seq<char>, home: Seq<char>) -> Seq<char> {
    plain_path(joined_path(cwd, spelled_out(path, home, url_text(path))))
}

/// A path made absolute from a working directory, given the path of the file
/// URL that it may be.
pub fn resolve_spelled(cwd: &str, path: &str, home: &str, url: Option<String>) -> (r: String)
    ensures
        r@ == plain_path(joined_path(cwd@, spelled_out(path@, home@, text_of_option(url)))),
{
    proof {
        reveal_strlit("~/");
        reveal_strlit("~\\");
    }
    let spelled: String = if same_text(path, "~") {
        home.to_string()
    } else if has_prefix(path, "~/") || has_prefix(path, "~\\") {
        let n: usize = path.unicode_len();
        proof {
            assert(path@.subrange(2, n as int) =~= path@.skip(2));
        }
        let rest: String = substring(path, 2, n);
        join_two(home, rest.as_str())
    } else {
        match url {
            Some(text) => text,
            None => path.to_string(),
        }
    };
    let joined: String = join_two(cwd, spelled.as_str());
    normalize_absolute(joined.as_str())
}

/// A path made absolute from a working directory: the home directory, file
/// URLs, and parts that cancel out.
pub fn resolve_path(cwd: &str, path: &str, home: &str) -> (r: String)
    ensures
        r@ == resolved_path(cwd@, path@, home@),
{
    let url: Option<String> = file_url_to_path(path);
    resolve_spelled(cwd, path, home, url)
}

/// No part of a path that was made plain cancels out or is empty.
pub proof fn law_plain_paths_have_plain_parts(parts: Seq<Seq<char>>, i: int)
    requires
        0 <= i < applied_parts(parts).len(),
    ensures
        applied_parts(parts)[i].len() > 0,
        applied_parts(parts)[i] != "."@,
        applied_parts(parts)[i] != ".."@,
    decreases parts.len(),
{
    if parts.len() > 0 {
        let before = applied_parts(parts.drop_last());
        if i < before.len() {
            law_plain_paths_have_plain_parts(parts.drop_last(), i);
        }
    }
}

/// The last part of a path that names an object, or the path where there is
/// none.
pub open spec fn object_name(path: Seq<char>) -> Seq<char> {
    match last_part(split(path, '/')) {
        Some(part) => if part == ".."@ {
            path
        } else {
            part
        },
        None => path,
    }
}

/// The last part that is neither empty nor `.`.
pub open spec fn last_part(parts: Seq<Seq<char>>) -> Option<Seq<char>>
    decreases parts.len(),
{
    if parts.len() == 0 {
        None
    } else if parts.last().len() == 0 || (parts.last() == "."@ && parts.len() > 1) {
        last_part(parts.drop_last())
    } else if parts.last() == "."@ {
        None
    } else {
        Some(parts.last())
    }
}

fn name_of(path: &str) -> (r: String)
    ensures
        r@ == object_name(path@),
{
    let parts: Vec<String> = split_text(path, '/');
    let ghost all = texts(parts@);
    let mut n: usize = parts.len();
    proof {
        assert(all.take(all.len() as int) =~= all);
    }
    while n > 0
        invariant
            n <= parts@.len(),
            all == texts(parts@),
            all == split(path@, '/'),
            last_part(all) == last_part(all.take(n as int)),
        decreases n,
    {
        proof {
            assert(all.take(n as int).drop_last() =~= all.take(n - 1));
            assert(all.take(n as int).last() == parts@[n - 1]@);
        }
        let empty: bool = parts[n - 1].as_str().unicode_len() == 0;
        let dot: bool = same_text(parts[n - 1].as_str(), ".");
        if !empty && !dot {
            if same_text(parts[n - 1].as_str(), "..") {
                return path.to_string();
            }
            return parts[n - 1].clone();
        }
        if !empty && n == 1 {
            return path.to_string();
        }
        n = n - 1;
    }
    path.to_string()
}

// ---------------------------------------------------------------------------
// File operations
// ---------------------------------------------------------------------------

/// Why the system refused a file operation.
#[derive(Clone, Copy, PartialEq, Eq, Structural, Debug)]
pub enum SystemErrorKind {
    NotFound,
    PermissionDenied,
    NotADirectory,
    IsADirectory,
    InvalidInput,
    InvalidData,
    /// Any other, with the number that the system gave it.
    Other(Option<i32>),
}

/// The code of a refusal.
pub open spec fn code_of_system_error(kind: SystemErrorKind) -> FileErrorCode {
    match kind {
        SystemErrorKind::NotFound => FileErrorCode::NotFound,
        SystemErrorKind::PermissionDenied => FileErrorCode::PermissionDenied,
        SystemErrorKind::NotADirectory => FileErrorCode::NotDirectory,
        SystemErrorKind::IsADirectory => FileErrorCode::IsDirectory,
        SystemErrorKind::InvalidInput => FileErrorCode::Invalid,
        SystemErrorKind::InvalidData => FileErrorCode::Invalid,
        SystemErrorKind::Other(number) => if number == Some(20i32) {
            FileErrorCode::NotDirectory
        } else if number == Some(21i32) {
            FileErrorCode::IsDirectory
        } else {
            FileErrorCode::Unknown
        },
    }
}

/// The error of a refused file operation.
pub fn to_file_error(kind: SystemErrorKind, message: String, path: Option<String>) -> (r: FileError)
    ensures
        r@ == (FileErrorView {
            code: code_of_system_error(kind),
            message: message@,
            path: text_of_option(path),
        }),
{
    let code: FileErrorCode = match kind {
        SystemErrorKind::NotFound => FileErrorCode::NotFound,
        SystemErrorKind::PermissionDenied => FileErrorCode::PermissionDenied,
        SystemErrorKind::NotADirectory => FileErrorCode::NotDirectory,
        SystemErrorKind::IsADirectory => FileErrorCode::IsDirectory,
        SystemErrorKind::InvalidInput => FileErrorCode::Invalid,
        SystemErrorKind::InvalidData => FileErrorCode::Invalid,
        SystemErrorKind::Other(number) => match number {
            Some(20) => FileErrorCode::NotDirectory,
            Some(21) => FileErrorCode::IsDirectory,
            _ => FileErrorCode::Unknown,
        },
    };
    FileError { code, message, path }
}

/// The error of an operation that was called off.
pub fn aborted_error(path: Option<String>) -> (r: FileError)
    ensures
        r@ == (FileErrorView {
            code: FileErrorCode::Aborted,
            message: "aborted"@,
            path: text_of_option(path),
        }),
{
    FileError { code: FileErrorCode::Aborted, message: "aborted".to_string(), path }
}

/// What is known of an object, or the refusal of one that is neither file nor
/// directory nor link.
pub fn file_info_from_metadata(
    path: &str,
    kind: Option<FileKind>,
    size: u64,
    mtime_ms: JsF64,
) -> (r: Result<FileInfo, FileError>)
    ensures
        match kind {
            Some(kind) => r matches Ok(info) && info.name@ == object_name(path@) && info.path@
                == path@ && info.kind == kind && info.size == size && info.mtime_ms == mtime_ms,
            None => r matches Err(e) && e@ == (FileErrorView {
                code: FileErrorCode::Invalid,
                message: "Unsupported file type"@,
                path: Some(path@),
            }),
        },
{
    match kind {
        Some(kind) => Ok(
            FileInfo { name: name_of(path), path: path.to_string(), kind, size, mtime_ms },
        ),
        None => Err(
            FileError::with_path(
                FileErrorCode::Invalid,
                "Unsupported file type".to_string(),
                path.to_string(),
            ),
        ),
    }
}

/// Whether an object exists, from the attempt to look at it.
pub fn exists_outcome(info: Result<FileInfo, FileError>) -> (r: Result<bool, FileError>)
    ensures
        match info {
            Ok(_) => r == Ok::<bool, FileError>(true),
            Err(e) => if e.code == FileErrorCode::NotFound {
                r == Ok::<bool, FileError>(false)
            } else {
                r == Err::<bool, FileError>(e)
            },
        },
{
    match info {
        Ok(_) => Ok(true),
        Err(e) => if e.code == FileErrorCode::NotFound {
            Ok(false)
        } else {
            Err(e)
        },
    }
}

/// The outcome of a removal: what does not exist counts as removed if that was
/// asked for.
pub fn remove_outcome(result: Result<(), FileError>, force: bool) -> (r: Result<(), FileError>)
    ensures
        match result {
            Ok(_) => r is Ok,
            Err(e) => if force && e.code == FileErrorCode::NotFound {
                r is Ok
            } else {
                r == Err::<(), FileError>(e)
            },
        },
{
    match result {
        Ok(_) => Ok(()),
        Err(e) => if force && e.code == FileErrorCode::NotFound {
            Ok(())
        } else {
            Err(e)
        },
    }
}

/// A byte as two hexadecimal digits.
pub open spec fn hex_char(n: u8) -> char {
    if n < 10 {
        (0x30 + n) as char
    } else {
        (0x61 + n - 10) as char
    }
}

/// Bytes as hexadecimal digits.
pub open spec fn hex_text(bytes: Seq<u8>) -> Seq<char> {
    Seq::new(
        2 * bytes.len(),
        |i: int|
            if i % 2 == 0 {
                hex_char(bytes[i / 2] / 16)
            } else {
                hex_char(bytes[i / 2] % 16)
            },
    )
}

fn write_hex_char(n: u8) -> (r: char)
    requires
        n < 16,
    ensures
        r == hex_char(n),
{
    if n < 10 {
        (0x30u8 + n) as char
    } else {
        (0x61u8 + (n - 10)) as char
    }
}

/// Bytes as hexadecimal digits.
pub fn to_hex(bytes: &[u8]) -> (r: String)
    ensures
        r@ == hex_text(bytes@),
{
    let mut out: Vec<char> = Vec::new();
    let mut i: usize = 0;
    while i < bytes.len()
        invariant
            i <= bytes@.len(),
            out@ == hex_text(bytes@).take(2 * i as int),
        decreases bytes@.len() - i,
    {
        out.push(write_hex_char(bytes[i] / 16));
        out.push(write_hex_char(bytes[i] % 16));
        proof {
            let all = hex_text(bytes@);
            assert(all[2 * i as int] == hex_char(bytes@[i as int] / 16));
            assert(all[2 * i + 1] == hex_char(bytes@[i as int] % 16));
            assert(out@ =~= all.take(2 * (i + 1)));
        }
        i = i + 1;
    }
    proof {
        assert(hex_text(bytes@).take(2 * bytes@.len() as int) =~= hex_text(bytes@));
    }
    string_of(out.as_slice())
}

/// An optional text, or the empty one.
pub open spec fn text_or_none(text: Option<String>) -> Seq<char> {
    match text {
        Some(t) => t@,
        None => Seq::empty(),
    }
}

/// The name of a temporary file.
pub fn temp_file_name(options: &CreateTempFileOptions, random: &str) -> (r: String)
    ensures
        r@ == text_or_none(options.prefix) + random@ + text_or_none(options.suffix),
{
    let prefix: String = match &options.prefix {
        Some(text) => text.clone(),
        None => String::new(),
    };
    let suffix: String = match &options.suffix {
        Some(text) => text.clone(),
        None => String::new(),
    };
    proof {
        assert(text_or_none(options.prefix) =~= prefix@);
        assert(text_or_none(options.suffix) =~= suffix@);
    }
    concat3(prefix.as_str(), random, suffix.as_str())
}

// ---------------------------------------------------------------------------
// Streams
// ---------------------------------------------------------------------------

/// The longest start of bytes, up to a length, that encodes a text.
pub open spec fn valid_within(bytes: Seq<u8>, n: int) -> int
    decreases n,
{
    if n <= 0 {
        0
    } else if valid_utf8(bytes.take(n)) {
        n
    } else {
        valid_within(bytes, n - 1)
    }
}

/// The length of the longest start of bytes that encodes a text.
pub open spec fn valid_length(bytes: Seq<u8>) -> int {
    valid_within(bytes, bytes.len() as int)
}

/// Calls `std::str::from_utf8`: whether it takes the bytes, which are then valid.
#[verifier::external_body]
fn is_text(bytes: &[u8]) -> (r: bool)
    ensures
        r == valid_utf8(bytes@),
{
    std::str::from_utf8(bytes).is_ok()
}

proof fn lemma_valid_longest(bytes: Seq<u8>, n: int, m: int)
    requires
        0 <= n <= bytes.len(),
        valid_within(bytes, n) < m <= n,
    ensures
        !valid_utf8(bytes.take(m)),
    decreases n,
{
    if m < n {
        lemma_valid_longest(bytes, n - 1, m);
    }
}

proof fn lemma_valid_length_is(bytes: Seq<u8>, n: int, length: int)
    requires
        0 <= length <= n <= bytes.len(),
        valid_utf8(bytes.take(length)),
        forall|m: int| length < m <= n ==> !valid_utf8(#[trigger] bytes.take(m)),
    ensures
        valid_within(bytes, n) == length,
    decreases n,
{
    if length < n {
        assert(!valid_utf8(bytes.take(n)));
        lemma_valid_length_is(bytes, n - 1, length);
    }
}

proof fn lemma_rest_is_valid(bytes: Seq<u8>, i: int, m: int)
    requires
        0 <= i <= m <= bytes.len(),
        valid_utf8(bytes.take(i)),
        valid_utf8(bytes.take(m)),
    ensures
        valid_utf8(bytes.subrange(i, m)),
{
    let front = bytes.take(m);
    assert(front.subrange(0, i) =~= bytes.take(i));
    assert(front.subrange(i, m) =~= bytes.subrange(i, m));
    if !valid_utf8(bytes.subrange(i, m)) {
        vstd::utf8::partial_valid_partial_invalid_utf8(front, i);
    }
}

proof fn lemma_first_character(bytes: Seq<u8>)
    requires
        valid_utf8(bytes),
        bytes.len() > 0,
    ensures
        ({
            let k = vstd::utf8::length_of_first_scalar(bytes);
            1 <= k <= 4 && k <= bytes.len() && valid_utf8(bytes.take(k))
        }),
{
    let k = vstd::utf8::length_of_first_scalar(bytes);
    assert(bytes.subrange(0, 0).len() == 0);
    assert(bytes.subrange(0, bytes.len() as int) =~= bytes);
    vstd::utf8::partial_valid_utf8_extend(bytes, 0);
    assert(bytes.subrange(0, k) =~= bytes.take(k));
}

/// How many bytes the character at a position takes, and zero where there is
/// none.
fn character_width(bytes: &[u8], at: usize) -> (r: usize)
    requires
        at <= bytes@.len(),
    ensures
        0 <= r <= bytes@.len() - at,
        r > 0 ==> valid_utf8(bytes@.subrange(at as int, at + r)),
        r == 0 ==> forall|k: int|
            1 <= k <= 4 && at + k <= bytes@.len() ==> !valid_utf8(
                #[trigger] bytes@.subrange(at as int, at + k),
            ),
{
    let mut width: usize = 1;
    while width <= 4 && width <= bytes.len() - at
        invariant
            at <= bytes@.len(),
            1 <= width <= 5,
            forall|k: int|
                1 <= k < width && at + k <= bytes@.len() ==> !valid_utf8(
                    #[trigger] bytes@.subrange(at as int, at + k),
                ),
        decreases 5 - width,
    {
        if is_text(vstd::slice::slice_subrange(bytes, at, at + width)) {
            return width;
        }
        width = width + 1;
    }
    0
}

/// The length of the longest start of bytes that encodes a text.
fn valid_up_to(bytes: &[u8]) -> (r: usize)
    ensures
        r == valid_length(bytes@),
{
    let n: usize = bytes.len();
    proof {
        assert(bytes@.take(n as int) =~= bytes@);
        assert(bytes@.take(0).len() == 0);
    }
    if is_text(bytes) {
        return n;
    }
    let mut at: usize = 0;
    let mut width: usize = character_width(bytes, at);
    while width > 0
        invariant
            at <= n == bytes@.len(),
            width <= n - at,
            valid_utf8(bytes@.take(at as int)),
            width > 0 ==> valid_utf8(bytes@.subrange(at as int, at + width)),
            width == 0 ==> forall|k: int|
                1 <= k <= 4 && at + k <= bytes@.len() ==> !valid_utf8(
                    #[trigger] bytes@.subrange(at as int, at + k),
                ),
        decreases n - at, width,
    {
        proof {
            let front = bytes@.take(at as int);
            let next = bytes@.subrange(at as int, at + width);
            vstd::utf8::valid_utf8_concat(front, next);
            assert(front + next =~= bytes@.take(at + width));
        }
        at = at + width;
        width = character_width(bytes, at);
    }
    proof {
        assert forall|m: int| at < m <= n implies !valid_utf8(#[trigger] bytes@.take(m)) by {
            if valid_utf8(bytes@.take(m)) {
                lemma_rest_is_valid(bytes@, at as int, m);
                let rest = bytes@.subrange(at as int, m);
                lemma_first_character(rest);
                let k = vstd::utf8::length_of_first_scalar(rest);
                assert(rest.take(k) =~= bytes@.subrange(at as int, at + k));
            }
        }
        lemma_valid_length_is(bytes@, n as int, at as int);
    }
    at
}

proof fn lemma_valid_within(bytes: Seq<u8>, n: int)
    requires
        0 <= n <= bytes.len(),
    ensures
        0 <= valid_within(bytes, n) <= n,
        valid_utf8(bytes.take(valid_within(bytes, n))),
    decreases n,
{
    if n > 0 && !valid_utf8(bytes.take(n)) {
        lemma_valid_within(bytes, n - 1);
    } else if n == 0 {
        assert(bytes.take(0).len() == 0);
    }
}

/// Bytes that came in, as far as they do not make up characters yet.
pub struct IncrementalUtf8Decoder {
    pub buffer: Vec<u8>,
}

impl IncrementalUtf8Decoder {
    /// Nothing came in.
    pub fn new() -> (r: Self)
        ensures
            r.buffer@.len() == 0,
    {
        IncrementalUtf8Decoder { buffer: Vec::new() }
    }

    /// Takes bytes in and gives the characters that are complete.
    pub fn push(&mut self, chunk: &[u8]) -> (r: String)
        ensures
            ({
                let all = old(self).buffer@ + chunk@;
                &&& r@ == decode_utf8(all.take(valid_length(all)))
                &&& final(self).buffer@ == all.skip(valid_length(all))
            }),
    {
        let mut all: Vec<u8> = Vec::new();
        let mut i: usize = 0;
        while i < self.buffer.len()
            invariant
                i <= self.buffer@.len(),
                all@ == self.buffer@.take(i as int),
            decreases self.buffer@.len() - i,
        {
            all.push(self.buffer[i]);
            i = i + 1;
            proof {
                assert(all@ =~= self.buffer@.take(i as int));
            }
        }
        let ghost held = self.buffer@;
        proof {
            assert(held.take(held.len() as int) =~= held);
            assert(held + chunk@.take(0) =~= held);
        }
        i = 0;
        while i < chunk.len()
            invariant
                i <= chunk@.len(),
                all@ == held + chunk@.take(i as int),
            decreases chunk@.len() - i,
        {
            all.push(chunk[i]);
            i = i + 1;
            proof {
                assert(all@ =~= held + chunk@.take(i as int));
            }
        }
        proof {
            assert(chunk@.take(chunk@.len() as int) =~= chunk@);
            lemma_valid_within(all@, all@.len() as int);
        }
        let n: usize = valid_up_to(all.as_slice());
        let size: usize = all.len();
        proof {
            assert(all@.subrange(0, n as int) =~= all@.take(n as int));
        }
        let text: String = text_of_bytes(vstd::slice::slice_subrange(all.as_slice(), 0, n));
        let mut rest: Vec<u8> = Vec::new();
        i = n;
        proof {
            assert(rest@ =~= all@.subrange(n as int, n as int));
        }
        while i < size
            invariant
                n <= i <= size == all@.len(),
                rest@ == all@.subrange(n as int, i as int),
            decreases size - i,
        {
            rest.push(all[i]);
            i = i + 1;
            proof {
                assert(rest@ =~= all@.subrange(n as int, i as int));
            }
        }
        proof {
            assert(all@.subrange(n as int, size as int) =~= all@.skip(n as int));
        }
        self.buffer = rest;
        text
    }
}

/// All bytes of chunks.
pub open spec fn all_bytes(chunks: Seq<Seq<u8>>) -> Seq<u8>
    decreases chunks.len(),
{
    if chunks.len() == 0 {
        Seq::empty()
    } else {
        all_bytes(chunks.drop_last()) + chunks.last()
    }
}

/// What a decoder gave for chunks, and what it holds back.
pub open spec fn decoded_chunks(chunks: Seq<Seq<u8>>) -> (Seq<char>, Seq<u8>)
    decreases chunks.len(),
{
    if chunks.len() == 0 {
        (Seq::empty(), Seq::empty())
    } else {
        let (text, held) = decoded_chunks(chunks.drop_last());
        let all = held + chunks.last();
        (text + decode_utf8(all.take(valid_length(all))), all.skip(valid_length(all)))
    }
}

/// What two texts encode together is what they encode one after the other.
proof fn lemma_decode_concat(a: Seq<u8>, b: Seq<u8>)
    requires
        valid_utf8(a),
        valid_utf8(b),
    ensures
        valid_utf8(a + b),
        decode_utf8(a + b) == decode_utf8(a) + decode_utf8(b),
    decreases a.len(),
{
    vstd::utf8::valid_utf8_concat(a, b);
    if a.len() == 0 {
        assert(a + b =~= b);
        assert(decode_utf8(a) + decode_utf8(b) =~= decode_utf8(b));
    } else {
        let rest = vstd::utf8::pop_first_scalar(a);
        assert(rest.len() < a.len());
        assert(vstd::utf8::pop_first_scalar(a + b) =~= rest + b);
        lemma_decode_concat(rest, b);
        assert(decode_utf8(a + b) =~= decode_utf8(a) + decode_utf8(b));
    }
}

proof fn lemma_decoder_state(chunks: Seq<Seq<u8>>) -> (done: Seq<u8>)
    ensures
        done + decoded_chunks(chunks).1 == all_bytes(chunks),
        valid_utf8(done),
        decoded_chunks(chunks).0 == decode_utf8(done),
    decreases chunks.len(),
{
    if chunks.len() == 0 {
        assert(Seq::<u8>::empty() + Seq::<u8>::empty() =~= Seq::<u8>::empty());
        Seq::empty()
    } else {
        let before = lemma_decoder_state(chunks.drop_last());
        let (text, held) = decoded_chunks(chunks.drop_last());
        let all = held + chunks.last();
        lemma_valid_within(all, all.len() as int);
        let n = valid_length(all);
        lemma_decode_concat(before, all.take(n));
        assert(before + all.take(n) + all.skip(n) =~= before + held + chunks.last());
        before + all.take(n)
    }
}

/// However a text's bytes are cut into chunks, the decoder gives the text and
/// holds nothing back.
pub proof fn law_chunks_decode_to_the_text(chunks: Seq<Seq<u8>>)
    requires
        valid_utf8(all_bytes(chunks)),
    ensures
        decoded_chunks(chunks) == (decode_utf8(all_bytes(chunks)), Seq::<u8>::empty()),
{
    let done = lemma_decoder_state(chunks);
    let held = decoded_chunks(chunks).1;
    let all = all_bytes(chunks);
    assert(all.subrange(0, done.len() as int) =~= done);
    assert(all.subrange(done.len() as int, all.len() as int) =~= held);
    if !valid_utf8(held) {
        vstd::utf8::partial_valid_partial_invalid_utf8(all, done.len() as int);
    }
    if chunks.len() > 0 {
        let before = decoded_chunks(chunks.drop_last()).1;
        let last = before + chunks.last();
        let n = valid_length(last);
        lemma_valid_within(last, last.len() as int);
        vstd::utf8::valid_utf8_concat(last.take(n), held);
        assert(last.take(n) + held =~= last);
        assert(last.take(last.len() as int) =~= last);
        assert(n == last.len());
    }
    assert(held.len() == 0);
    assert(held =~= Seq::<u8>::empty());
    assert(done =~= all);
}

/// After each chunk, what the decoder gave is the longest text that the bytes so
/// far hold, and it holds the bytes behind that text.
pub proof fn law_chunks_decode_as_far_as_they_can(chunks: Seq<Seq<u8>>)
    ensures
        ({
            let all = all_bytes(chunks);
            decoded_chunks(chunks) == (
                decode_utf8(all.take(valid_length(all))),
                all.skip(valid_length(all)),
            )
        }),
{
    let done = lemma_decoder_state(chunks);
    let held = decoded_chunks(chunks).1;
    let all = all_bytes(chunks);
    let length = done.len() as int;
    assert(all.take(length) =~= done);
    assert(all.skip(length) =~= held);
    assert forall|m: int| length < m <= all.len() implies !valid_utf8(#[trigger] all.take(m)) by {
        if valid_utf8(all.take(m)) {
            lemma_rest_is_valid(all, length, m);
            let more = all.subrange(length, m);
            assert(more =~= held.take(m - length));
            let before = decoded_chunks(chunks.drop_last()).1;
            let last = before + chunks.last();
            let n = valid_length(last);
            lemma_valid_within(last, last.len() as int);
            vstd::utf8::valid_utf8_concat(last.take(n), more);
            assert(last.take(n) + more =~= last.take(n + more.len()));
            lemma_valid_longest(last, last.len() as int, n + more.len());
        }
    }
    lemma_valid_length_is(all, all.len() as int, length);
}

/// A line without carriage returns at its end.
pub open spec fn without_returns(line: Seq<char>) -> Seq<char> {
    trim_end(line, |c: char| c == '\r')
}

/// The position of the first line end.
pub open spec fn line_end(text: Seq<char>) -> Option<int> {
    crate::text::first_match(text, "\n"@, 0)
}

/// The lines after the complete ones of a text were taken, up to a number of
/// lines; what is left of the text; and whether the number was reached.
pub open spec fn taken_lines(
    lines: Seq<Seq<char>>,
    text: Seq<char>,
    max: Option<usize>,
) -> (Seq<Seq<char>>, Seq<char>, bool)
    decreases text.len(),
{
    match line_end(text) {
        Some(k) => if 0 <= k < text.len() {
            let more = lines.push(without_returns(text.take(k)));
            let rest = text.skip(k + 1);
            if max is Some && more.len() >= max->0 {
                (more, rest, true)
            } else {
                taken_lines(more, rest, max)
            }
        } else {
            (lines, text, false)
        },
        None => (lines, text, false),
    }
}

/// Lines of a stream.
pub struct LineReader {
    pub decoder: IncrementalUtf8Decoder,
    pub carry: String,
    pub lines: Vec<String>,
    pub max_lines: Option<usize>,
}

fn strip_returns(line: &str) -> (r: String)
    ensures
        r@ == without_returns(line@),
{
    let mut set: Vec<char> = Vec::new();
    set.push('\r');
    let r: String = trim_end_of(line, set.as_slice());
    proof {
        let p = |c: char| set@.contains(c);
        let q = |c: char| c == '\r';
        assert(set@[0] == '\r');
        assert forall|c: char| #[trigger] p(c) == #[trigger] q(c) by {
            if q(c) {
                assert(set@.contains(set@[0]));
            }
        }
        crate::tools::edit_diff::lemma_trim_end_agrees(line@, p, q);
    }
    r
}

impl LineReader {
    /// No lines were read.
    pub fn new(max_lines: Option<usize>) -> (r: Self)
        ensures
            r.decoder.buffer@.len() == 0,
            r.carry@.len() == 0,
            r.lines@.len() == 0,
            r.max_lines == max_lines,
    {
        LineReader {
            decoder: IncrementalUtf8Decoder::new(),
            carry: String::new(),
            lines: Vec::new(),
            max_lines,
        }
    }

    /// Takes bytes in; true once as many lines as were asked for are there.
    pub fn push(&mut self, bytes: &[u8]) -> (r: bool)
        ensures
            ({
                let all = old(self).decoder.buffer@ + bytes@;
                let n = valid_length(all);
                &&& final(self).decoder.buffer@ == all.skip(n)
                &&& (texts(final(self).lines@), final(self).carry@, r) == taken_lines(
                    texts(old(self).lines@),
                    old(self).carry@ + decode_utf8(all.take(n)),
                    old(self).max_lines,
                )
                &&& final(self).max_lines == old(self).max_lines
            }),
    {
        let text: String = self.decoder.push(bytes);
        let all: String = concat2(self.carry.as_str(), text.as_str());
        let chars: Vec<char> = chars_of(all.as_str());
        let mut newline: Vec<char> = Vec::new();
        newline.push('\n');
        let n: usize = chars.len();
        let mut from: usize = 0;
        let mut found: bool = true;
        let mut full: bool = false;
        let ghost start = texts(self.lines@);
        let ghost whole = all@;
        let ghost held = self.decoder.buffer@;
        proof {
            reveal_strlit("\n");
            assert(newline@ =~= "\n"@);
            assert(whole.skip(0) =~= whole);
        }
        while found && !full
            invariant
                from <= n == chars@.len(),
                chars@ == whole,
                all@ == whole,
                newline@ == "\n"@,
                "\n"@.len() == 1,
                self.max_lines == old(self).max_lines,
                self.decoder.buffer@ == held,
                found && !full ==> taken_lines(start, whole, self.max_lines) == taken_lines(
                    texts(self.lines@),
                    whole.skip(from as int),
                    self.max_lines,
                ),
                full ==> taken_lines(start, whole, self.max_lines) == (
                    texts(self.lines@),
                    whole.skip(from as int),
                    true,
                ),
                !found && !full ==> taken_lines(start, whole, self.max_lines) == (
                    texts(self.lines@),
                    whole.skip(from as int),
                    false,
                ),
            decreases n - from + if found && !full {
                1int
            } else {
                0int
            },
        {
            let ghost rest = whole.skip(from as int);
            proof {
                lemma_match_in_rest(whole, "\n"@, from as int);
            }
            match find_from(chars.as_slice(), newline.as_slice(), from) {
                Some(at) => {
                    proof {
                        crate::text::lemma_first_match(whole, "\n"@, from as int);
                        assert(line_end(rest) == Some(at - from));
                        assert(rest.take(at - from) =~= whole.subrange(from as int, at as int));
                        assert(rest.skip(at - from + 1) =~= whole.skip(at + 1));
                    }
                    let line: String = substring(all.as_str(), from, at);
                    let clean: String = strip_returns(line.as_str());
                    let ghost before = self.lines@;
                    self.lines.push(clean);
                    proof {
                        assert(texts(self.lines@) =~= texts(before).push(clean@));
                    }
                    from = at + 1;
                    full = match self.max_lines {
                        Some(max) => self.lines.len() >= max,
                        None => false,
                    };
                },
                None => {
                    found = false;
                },
            }
        }
        proof {
            assert(whole.subrange(from as int, n as int) =~= whole.skip(from as int));
        }
        self.carry = substring(all.as_str(), from, n);
        full
    }

    /// The lines at the end of the stream. What follows the last line end is a
    /// line if it holds anything.
    pub fn finish(self) -> (r: Vec<String>)
        ensures
            texts(r@) == if self.carry@.len() > 0 {
                texts(self.lines@).push(without_returns(self.carry@))
            } else {
                texts(self.lines@)
            },
    {
        let mut lines: Vec<String> = self.lines;
        if self.carry.as_str().unicode_len() > 0 {
            let ghost before = lines@;
            let last: String = strip_returns(self.carry.as_str());
            lines.push(last);
            proof {
                assert(texts(lines@) =~= texts(before).push(last@));
            }
        }
        lines
    }
}

/// A search from a position finds what a search of the rest finds.
proof fn lemma_match_in_rest(text: Seq<char>, needle: Seq<char>, from: int)
    requires
        0 <= from <= text.len(),
        needle.len() == 1,
    ensures
        crate::text::first_match(text.skip(from), needle, 0) == (match crate::text::first_match(
            text,
            needle,
            from,
        ) {
            Some(at) => Some(at - from),
            None => None,
        }),
{
    lemma_match_shifted(text, needle, from, from);
}

proof fn lemma_match_shifted(text: Seq<char>, needle: Seq<char>, from: int, at: int)
    requires
        0 <= from <= at <= text.len(),
        needle.len() == 1,
    ensures
        crate::text::first_match(text.skip(from), needle, at - from) == (
        match crate::text::first_match(text, needle, at) {
            Some(found) => Some(found - from),
            None => None,
        }),
    decreases text.len() - at,
{
    if at + needle.len() <= text.len() {
        assert(text.skip(from).subrange(at - from, at - from + 1) =~= text.subrange(at, at + 1));
        lemma_match_shifted(text, needle, from, at + 1);
    }
}

/// What a line reader holds after chunks: its lines, the text of the open line,
/// the bytes of an open character, and whether it has as many lines as were asked
/// for. It is handed no more chunks then.
pub open spec fn read_chunks(chunks: Seq<Seq<u8>>, max: Option<usize>) -> (
    Seq<Seq<char>>,
    Seq<char>,
    Seq<u8>,
    bool,
)
    decreases chunks.len(),
{
    if chunks.len() == 0 {
        (Seq::empty(), Seq::empty(), Seq::empty(), false)
    } else {
        let (lines, carry, held, full) = read_chunks(chunks.drop_last(), max);
        if full {
            (lines, carry, held, full)
        } else {
            let all = held + chunks.last();
            let n = valid_length(all);
            let (more, rest, reached) = taken_lines(
                lines,
                carry + decode_utf8(all.take(n)),
                max,
            );
            (more, rest, all.skip(n), reached)
        }
    }
}

proof fn lemma_line_end_stays(a: Seq<char>, b: Seq<char>)
    requires
        line_end(a) is Some,
    ensures
        line_end(a + b) == line_end(a),
{
    reveal_strlit("\n");
    let k = line_end(a)->0;
    crate::text::lemma_first_match(a, "\n"@, 0);
    crate::text::lemma_first_match(a + b, "\n"@, 0);
    assert((a + b).subrange(k, k + 1) =~= a.subrange(k, k + 1));
    assert(crate::text::matches_at(a + b, k, "\n"@));
    if line_end(a + b) is Some {
        let other = line_end(a + b)->0;
        if other < k {
            assert((a + b).subrange(other, other + 1) =~= a.subrange(other, other + 1));
            assert(crate::text::matches_at(a, other, "\n"@));
        }
    }
}

/// Lines that are taken of one text and then of another are those of both
/// together.
proof fn lemma_taken_in_parts(
    lines: Seq<Seq<char>>,
    a: Seq<char>,
    b: Seq<char>,
    max: Option<usize>,
)
    ensures
        ({
            let first = taken_lines(lines, a, max);
            let both = taken_lines(lines, a + b, max);
            if first.2 {
                both.0 == first.0 && both.2
            } else {
                both == taken_lines(first.0, first.1 + b, max)
            }
        }),
    decreases a.len(),
{
    match line_end(a) {
        Some(k) => {
            lemma_line_end_stays(a, b);
            if 0 <= k < a.len() {
                assert((a + b).take(k) =~= a.take(k));
                assert((a + b).skip(k + 1) =~= a.skip(k + 1) + b);
                lemma_taken_in_parts(
                    lines.push(without_returns(a.take(k))),
                    a.skip(k + 1),
                    b,
                    max,
                );
            } else {
                crate::text::lemma_first_match(a, "\n"@, 0);
                reveal_strlit("\n");
            }
        },
        None => {},
    }
}

proof fn lemma_read_chunks(chunks: Seq<Seq<u8>>, max: Option<usize>)
    ensures
        ({
            let (lines, carry, held, full) = read_chunks(chunks, max);
            let (text, open) = decoded_chunks(chunks);
            let whole = taken_lines(Seq::empty(), text, max);
            &&& lines == whole.0
            &&& full == whole.2
            &&& !full ==> carry == whole.1 && held == open
        }),
    decreases chunks.len(),
{
    if chunks.len() == 0 {
        reveal_strlit("\n");
        crate::text::lemma_first_match(Seq::<char>::empty(), "\n"@, 0);
    } else {
        let before = chunks.drop_last();
        lemma_read_chunks(before, max);
        let (text, held) = decoded_chunks(before);
        let all = held + chunks.last();
        lemma_taken_in_parts(Seq::empty(), text, decode_utf8(all.take(valid_length(all))), max);
    }
}

/// However a text's bytes are cut into chunks, a reader gives the same lines: all
/// of the text, up to the number that was asked for.
pub proof fn law_lines_do_not_depend_on_chunks(chunks: Seq<Seq<u8>>, max: Option<usize>)
    requires
        valid_utf8(all_bytes(chunks)),
    ensures
        ({
            let (lines, carry, held, full) = read_chunks(chunks, max);
            let whole = taken_lines(Seq::empty(), decode_utf8(all_bytes(chunks)), max);
            &&& lines == whole.0
            &&& full == whole.2
            &&& !full ==> carry == whole.1 && held.len() == 0
        }),
{
    law_chunks_decode_to_the_text(chunks);
    lemma_read_chunks(chunks, max);
}

proof fn lemma_taken_count(lines: Seq<Seq<char>>, text: Seq<char>, max: usize)
    requires
        lines.len() < max,
    ensures
        ({
            let taken = taken_lines(lines, text, Some(max));
            if taken.2 {
                taken.0.len() == max
            } else {
                taken.0.len() < max
            }
        }),
    decreases text.len(),
{
    match line_end(text) {
        Some(k) => {
            if 0 <= k < text.len() && lines.len() + 1 < max {
                lemma_taken_count(
                    lines.push(without_returns(text.take(k))),
                    text.skip(k + 1),
                    max,
                );
            }
        },
        None => {},
    }
}

/// A reader gives no more lines than were asked for, even with the open line at
/// the end.
pub proof fn law_no_more_lines_than_asked(chunks: Seq<Seq<u8>>, max: usize)
    requires
        max > 0,
    ensures
        ({
            let (lines, carry, held, full) = read_chunks(chunks, Some(max));
            if full {
                lines.len() == max
            } else {
                lines.len() + 1 <= max
            }
        }),
    decreases chunks.len(),
{
    if chunks.len() > 0 {
        law_no_more_lines_than_asked(chunks.drop_last(), max);
        let (lines, carry, held, full) = read_chunks(chunks.drop_last(), Some(max));
        if !full {
            let all = held + chunks.last();
            lemma_taken_count(lines, carry + decode_utf8(all.take(valid_length(all))), max);
        }
    }
}

// ---------------------------------------------------------------------------
// Shells
// ---------------------------------------------------------------------------

/// How a command reaches the shell.
#[derive(Clone, Copy, PartialEq, Eq, Structural, Debug)]
pub enum CommandTransport {
    Argv,
    Stdin,
}

/// The shell that runs commands.
pub struct ShellConfig {
    pub shell: String,
    pub args: Vec<String>,
    pub command_transport: Option<CommandTransport>,
}

/// A character in lower case, with backslashes for slashes.
pub open spec fn folded(c: char) -> char {
    if c == '/' {
        '\\'
    } else if 'A' <= c <= 'Z' {
        (c as u32 + 32) as char
    } else {
        c
    }
}

/// A path in lower case, with backslashes.
pub open spec fn folded_path(path: Seq<char>) -> Seq<char> {
    Seq::new(path.len(), |i: int| folded(path[i]))
}

/// Whether a path is that of the shell of an early Windows Subsystem for Linux.
pub open spec fn is_legacy_wsl(path: Seq<char>) -> bool {
    folded_path(path) == "c:\\windows\\system32\\bash.exe"@ || folded_path(path)
        == "c:\\windows\\sysnative\\bash.exe"@
}

fn fold_char(c: char) -> (r: char)
    ensures
        r == folded(c),
{
    if c == '/' {
        '\\'
    } else if 'A' <= c && c <= 'Z' {
        let n: u8 = c as u8;
        (n + 32) as char
    } else {
        c
    }
}

fn is_legacy_wsl_bash_path(path: &str) -> (r: bool)
    ensures
        r == is_legacy_wsl(path@),
{
    let chars: Vec<char> = chars_of(path);
    let mut out: Vec<char> = Vec::new();
    let mut i: usize = 0;
    while i < chars.len()
        invariant
            i <= chars@.len(),
            chars@ == path@,
            out@ == folded_path(path@).take(i as int),
        decreases chars@.len() - i,
    {
        out.push(fold_char(chars[i]));
        i = i + 1;
        proof {
            assert(out@ =~= folded_path(path@).take(i as int));
        }
    }
    proof {
        assert(folded_path(path@).take(path@.len() as int) =~= folded_path(path@));
    }
    let text: String = string_of(out.as_slice());
    same_text(text.as_str(), "c:\\windows\\system32\\bash.exe") || same_text(
        text.as_str(),
        "c:\\windows\\sysnative\\bash.exe",
    )
}

/// The mathematical value of a [`ShellConfig`].
pub struct ShellView {
    pub shell: Seq<char>,
    pub args: Seq<Seq<char>>,
    pub command_transport: Option<CommandTransport>,
}

impl View for ShellConfig {
    type V = ShellView;

    open spec fn view(&self) -> ShellView {
        ShellView {
            shell: self.shell@,
            args: texts(self.args@),
            command_transport: self.command_transport,
        }
    }
}

/// How a bash is run: with the command as an argument, or on its input.
pub open spec fn bash_config(shell: Seq<char>) -> ShellView {
    if is_legacy_wsl(shell) {
        ShellView {
            shell,
            args: seq!["-s"@],
            command_transport: Some(CommandTransport::Stdin),
        }
    } else {
        ShellView { shell, args: seq!["-c"@], command_transport: None }
    }
}

fn one_text(text: &str) -> (r: Vec<String>)
    ensures
        texts(r@) == seq![text@],
{
    let mut r: Vec<String> = Vec::new();
    r.push(text.to_string());
    proof {
        assert(texts(r@) =~= seq![text@]);
    }
    r
}

/// How a bash is run: with the command as an argument, or on its input.
pub fn get_bash_shell_config(shell: &str) -> (r: ShellConfig)
    ensures
        r@ == bash_config(shell@),
{
    if is_legacy_wsl_bash_path(shell) {
        ShellConfig {
            shell: shell.to_string(),
            args: one_text("-s"),
            command_transport: Some(CommandTransport::Stdin),
        }
    } else {
        ShellConfig { shell: shell.to_string(), args: one_text("-c"), command_transport: None }
    }
}

/// The first of the shells that a search printed, if it found any.
pub open spec fn first_found(output: Seq<char>, exit_code: Option<i32>) -> Option<Seq<char>> {
    let trimmed = trim(output);
    let first = trim(
        match crate::text::first_match(trimmed, "\r\n"@, 0) {
            Some(k) => trimmed.take(k),
            None => trimmed,
        },
    );
    if exit_code == Some(0i32) && output.len() > 0 && first.len() > 0 {
        Some(first)
    } else {
        None
    }
}

/// The first of the shells that a search printed, if it found any, from the
/// bytes of its output.
pub fn first_shell_found(output: &[u8], exit_code: Option<i32>) -> (r: Option<String>)
    ensures
        text_of_option(r) == first_found(lossy_text(output@), exit_code),
        decodes_to(output@, lossy_text(output@)),
{
    let text: String = text_of_bytes(output);
    first_shell_named(text.as_str(), exit_code)
}

/// The first of the shells that a search printed, if it found any.
pub fn first_shell_named(output: &str, exit_code: Option<i32>) -> (r: Option<String>)
    ensures
        text_of_option(r) == first_found(output@, exit_code),
{
    if output.unicode_len() == 0 {
        return None;
    }
    match exit_code {
        Some(0) => {},
        _ => {
            return None;
        },
    }
    let trimmed: String = trim_text(output);
    let chars: Vec<char> = chars_of(trimmed.as_str());
    let needle: Vec<char> = chars_of("\r\n");
    proof {
        crate::text::lemma_first_match(trimmed@, "\r\n"@, 0);
    }
    let line: String = match find_from(chars.as_slice(), needle.as_slice(), 0) {
        Some(k) => {
            proof {
                assert(trimmed@.subrange(0, k as int) =~= trimmed@.take(k as int));
            }
            substring(trimmed.as_str(), 0, k)
        },
        None => trimmed,
    };
    let first: String = trim_text(line.as_str());
    if first.as_str().unicode_len() > 0 {
        Some(first)
    } else {
        None
    }
}

/// The shell that runs commands: the one that was asked for, else bash where it
/// is or where it was found, else `sh`.
pub fn get_shell_config(
    custom: &Option<String>,
    custom_exists: bool,
    default_exists: bool,
    on_path: &Option<String>,
) -> (r: Result<ShellConfig, ExecutionError>)
    ensures
        match *custom {
            Some(path) => if custom_exists {
                r matches Ok(config) && config@ == bash_config(path@)
            } else {
                r matches Err(e) && e.code == ExecutionErrorCode::ShellUnavailable && e.message@
                    == "Custom shell path not found: "@ + path@
            },
            None => r matches Ok(config) && config@ == (if default_exists {
                bash_config("/bin/bash"@)
            } else {
                match *on_path {
                    Some(path) => bash_config(path@),
                    None => ShellView {
                        shell: "sh"@,
                        args: seq!["-c"@],
                        command_transport: None,
                    },
                }
            }),
        },
{
    match custom {
        Some(path) => if custom_exists {
            Ok(get_bash_shell_config(path.as_str()))
        } else {
            Err(
                ExecutionError::new(
                    ExecutionErrorCode::ShellUnavailable,
                    concat2("Custom shell path not found: ", path.as_str()),
                ),
            )
        },
        None => if default_exists {
            Ok(get_bash_shell_config("/bin/bash"))
        } else {
            match on_path {
                Some(path) => Ok(get_bash_shell_config(path.as_str())),
                None => Ok(
                    ShellConfig {
                        shell: "sh".to_string(),
                        args: one_text("-c"),
                        command_transport: None,
                    },
                ),
            }
        },
    }
}

/// The variables of an environment; of two with the same name the later counts.
pub open spec fn variables(pairs: Seq<(String, String)>) -> Map<Seq<char>, Seq<char>>
    decreases pairs.len(),
{
    if pairs.len() == 0 {
        Map::empty()
    } else {
        variables(pairs.drop_last()).insert(pairs.last().0@, pairs.last().1@)
    }
}

/// The variables of an environment that may be missing.
pub open spec fn optional_variables(pairs: Option<Vec<(String, String)>>) -> Map<
    Seq<char>,
    Seq<char>,
> {
    match pairs {
        Some(all) => variables(all@),
        None => Map::empty(),
    }
}

/// The environment of a command. Without the inherited variables those that are
/// configured for the shell are dropped too.
pub open spec fn shell_variables(
    process: Map<Seq<char>, Seq<char>>,
    base: Map<Seq<char>, Seq<char>>,
    extra: Map<Seq<char>, Seq<char>>,
    inherit: bool,
) -> Map<Seq<char>, Seq<char>> {
    if inherit {
        process.union_prefer_right(base).union_prefer_right(extra)
    } else {
        extra
    }
}

fn add_variables(merged: &mut Vec<(String, String)>, more: &Vec<(String, String)>)
    ensures
        variables(final(merged)@) == variables(old(merged)@).union_prefer_right(variables(more@)),
{
    let ghost start = variables(merged@);
    let mut i: usize = 0;
    proof {
        assert(more@.take(0) =~= Seq::<(String, String)>::empty());
        assert(start.union_prefer_right(Map::empty()) =~= start);
    }
    while i < more.len()
        invariant
            i <= more@.len(),
            variables(merged@) == start.union_prefer_right(variables(more@.take(i as int))),
        decreases more@.len() - i,
    {
        let ghost before = merged@;
        let pair: (String, String) = (more[i].0.clone(), more[i].1.clone());
        merged.push(pair);
        proof {
            assert(merged@.drop_last() =~= before);
            assert(more@.take(i + 1).drop_last() =~= more@.take(i as int));
            assert(more@.take(i + 1).last() == more@[i as int]);
            assert(variables(merged@) =~= start.union_prefer_right(
                variables(more@.take(i + 1)),
            ));
        }
        i = i + 1;
    }
    proof {
        assert(more@.take(more@.len() as int) =~= more@);
    }
}

/// The environment of a command.
pub fn get_shell_env(
    process: &Vec<(String, String)>,
    base_env: &Option<Vec<(String, String)>>,
    extra_env: &Option<Vec<(String, String)>>,
    inherit_env: bool,
) -> (r: Vec<(String, String)>)
    ensures
        variables(r@) == shell_variables(
            variables(process@),
            optional_variables(*base_env),
            optional_variables(*extra_env),
            inherit_env,
        ),
{
    let mut merged: Vec<(String, String)> = Vec::new();
    let ghost none = Map::<Seq<char>, Seq<char>>::empty();
    if inherit_env {
        add_variables(&mut merged, process);
        proof {
            assert(none.union_prefer_right(variables(process@)) =~= variables(process@));
        }
        match base_env {
            Some(base) => {
                add_variables(&mut merged, base);
            },
            None => {
                proof {
                    assert(variables(process@).union_prefer_right(none) =~= variables(process@));
                }
            },
        }
    }
    let ghost before = variables(merged@);
    match extra_env {
        Some(extra) => {
            add_variables(&mut merged, extra);
            proof {
                assert(none.union_prefer_right(variables(extra@)) =~= variables(extra@));
            }
        },
        None => {
            proof {
                assert(before.union_prefer_right(none) =~= before);
            }
        },
    }
    merged
}

// ---------------------------------------------------------------------------
// Commands
// ---------------------------------------------------------------------------

/// What is run for a command: a program, its arguments, and its input.
pub struct SpawnPlan {
    pub program: String,
    pub args: Vec<String>,
    pub input: Option<String>,
}

/// What is run for a command.
pub fn plan_spawn(config: &ShellConfig, command: &str) -> (r: SpawnPlan)
    ensures
        r.program@ == config.shell@,
        texts(r.args@) == if config.command_transport == Some(CommandTransport::Stdin) {
            texts(config.args@)
        } else {
            texts(config.args@).push(command@)
        },
        text_of_option(r.input) == if config.command_transport == Some(CommandTransport::Stdin) {
            Some(command@)
        } else {
            None
        },
{
    let mut args: Vec<String> = config.args.clone();
    proof {
        assert(args@ =~= config.args@);
    }
    let from_stdin: bool = config.command_transport == Some(CommandTransport::Stdin);
    if from_stdin {
        SpawnPlan {
            program: config.shell.clone(),
            args,
            input: Some(command.to_string()),
        }
    } else {
        let ghost before = args@;
        args.push(command.to_string());
        proof {
            assert(texts(args@) =~= texts(before).push(command@));
        }
        SpawnPlan { program: config.shell.clone(), args, input: None }
    }
}

/// The refusal to run a command in a directory that does not exist.
pub fn missing_directory_error(cwd: &str) -> (r: ExecutionError)
    ensures
        r.code == ExecutionErrorCode::SpawnError,
        r.message@ == "Working directory does not exist: "@ + cwd@
            + "\nCannot execute bash commands."@,
{
    ExecutionError::new(
        ExecutionErrorCode::SpawnError,
        concat3(
            "Working directory does not exist: ",
            cwd,
            "\nCannot execute bash commands.",
        ),
    )
}

/// The refusal of a command that was called off before it ran.
pub fn check_not_aborted(aborted: bool) -> (r: Result<(), ExecutionError>)
    ensures
        match r {
            Ok(_) => !aborted,
            Err(e) => aborted && e.code == ExecutionErrorCode::Aborted && e.message@
                == "aborted"@,
        },
{
    if aborted {
        Err(ExecutionError::new(ExecutionErrorCode::Aborted, "aborted".to_string()))
    } else {
        Ok(())
    }
}

/// How a command ended.
pub struct CommandEnd {
    /// Why one of those that were told of the output refused it, if one did.
    pub callback_error: Option<String>,
    /// The time that was allowed, as text, if the command ran out of it.
    pub timed_out: Option<String>,
    /// Whether the command was called off.
    pub aborted: bool,
    /// The exit code, if it had one; or why waiting for the end failed.
    pub status: Result<Option<i32>, String>,
    pub stdout: String,
    pub stderr: String,
}

/// The mathematical value of a [`CommandEnd`].
pub struct CommandEndView {
    pub callback_error: Option<Seq<char>>,
    pub timed_out: Option<Seq<char>>,
    pub aborted: bool,
    pub status: Result<Option<i32>, Seq<char>>,
    pub stdout: Seq<char>,
    pub stderr: Seq<char>,
}

impl View for CommandEnd {
    type V = CommandEndView;

    open spec fn view(&self) -> CommandEndView {
        CommandEndView {
            callback_error: text_of_option(self.callback_error),
            timed_out: text_of_option(self.timed_out),
            aborted: self.aborted,
            status: match self.status {
                Ok(code) => Ok(code),
                Err(message) => Err(message@),
            },
            stdout: self.stdout@,
            stderr: self.stderr@,
        }
    }
}

/// Whether a result is what a command comes to: refusals of its output go
/// first, then running out of time, then being called off.
pub open spec fn comes_to(
    end: CommandEndView,
    result: Result<ShellExecResult, ExecutionError>,
) -> bool {
    match result {
        Ok(found) => {
            &&& end.callback_error is None && end.timed_out is None && !end.aborted
            &&& end.status matches Ok(code) && found.exit_code == (match code {
                Some(n) => n,
                None => 0,
            })
            &&& found.stdout@ == end.stdout
            &&& found.stderr@ == end.stderr
        },
        Err(e) => if end.callback_error is Some {
            e.code == ExecutionErrorCode::CallbackError && e.message@ == end.callback_error->0
        } else if end.timed_out is Some {
            e.code == ExecutionErrorCode::Timeout && e.message@ == "timeout:"@ + end.timed_out->0
        } else if end.aborted {
            e.code == ExecutionErrorCode::Aborted && e.message@ == "aborted"@
        } else {
            e.code == ExecutionErrorCode::SpawnError && (end.status matches Err(message)
                && e.message@ == message)
        },
    }
}

/// What a command comes to.
pub fn command_outcome(end: CommandEnd) -> (r: Result<ShellExecResult, ExecutionError>)
    ensures
        comes_to(end@, r),
{
    if let Some(message) = end.callback_error {
        return Err(ExecutionError::new(ExecutionErrorCode::CallbackError, message));
    }
    if let Some(timeout) = end.timed_out {
        return Err(
            ExecutionError::new(
                ExecutionErrorCode::Timeout,
                concat2("timeout:", timeout.as_str()),
            ),
        );
    }
    if end.aborted {
        return Err(ExecutionError::new(ExecutionErrorCode::Aborted, "aborted".to_string()));
    }
    match end.status {
        Ok(code) => Ok(
            ShellExecResult {
                stdout: end.stdout,
                stderr: end.stderr,
                exit_code: match code {
                    Some(n) => n,
                    None => 0,
                },
            },
        ),
        Err(message) => Err(ExecutionError::new(ExecutionErrorCode::SpawnError, message)),
    }
}

/// What an execution environment is made with.
pub struct NodeExecutionEnvOptions {
    pub cwd: String,
    pub shell_path: Option<String>,
    pub shell_env: Option<Vec<(String, String)>>,
}

/// An execution environment: its working directory, its shell, and the
/// processes that are running.
pub struct NodeExecutionEnv {
    pub cwd: String,
    pub shell_path: Option<String>,
    pub shell_env: Option<Vec<(String, String)>>,
    pub active_child_pids: Vec<u32>,
}

impl NodeExecutionEnv {
    /// An environment in which nothing is running.
    pub fn new(options: NodeExecutionEnvOptions) -> (r: Self)
        ensures
            r.cwd == options.cwd,
            r.shell_path == options.shell_path,
            r.shell_env == options.shell_env,
            r.active_child_pids@ == Seq::<u32>::empty(),
    {
        NodeExecutionEnv {
            cwd: options.cwd,
            shell_path: options.shell_path,
            shell_env: options.shell_env,
            active_child_pids: Vec::new(),
        }
    }

    /// The directory that a command runs in.
    pub fn command_directory(&self, cwd: &Option<String>, home: &str) -> (r: String)
        ensures
            r@ == (match *cwd {
                Some(path) => resolved_path(self.cwd@, path@, home@),
                None => self.cwd@,
            }),
    {
        match cwd {
            Some(path) => resolve_path(self.cwd.as_str(), path.as_str(), home),
            None => self.cwd.clone(),
        }
    }

    fn pid_position(&self, pid: u32) -> (r: Option<usize>)
        ensures
            match r {
                Some(i) => i < self.active_child_pids@.len() && self.active_child_pids@[i as int]
                    == pid,
                None => !self.active_child_pids@.contains(pid),
            },
    {
        let mut i: usize = 0;
        while i < self.active_child_pids.len()
            invariant
                i <= self.active_child_pids@.len(),
                forall|k: int| 0 <= k < i ==> self.active_child_pids@[k] != pid,
            decreases self.active_child_pids@.len() - i,
        {
            if self.active_child_pids[i] == pid {
                return Some(i);
            }
            i = i + 1;
        }
        None
    }

    /// A process is running.
    pub fn track(&mut self, pid: u32)
        requires
            old(self).active_child_pids@.no_duplicates(),
        ensures
            final(self).active_child_pids@ == if old(self).active_child_pids@.contains(pid) {
                old(self).active_child_pids@
            } else {
                old(self).active_child_pids@.push(pid)
            },
            final(self).active_child_pids@.no_duplicates(),
            final(self).cwd == old(self).cwd,
            final(self).shell_path == old(self).shell_path,
            final(self).shell_env == old(self).shell_env,
    {
        if self.pid_position(pid).is_none() {
            self.active_child_pids.push(pid);
        }
    }

    /// A process is no longer running.
    pub fn untrack(&mut self, pid: u32)
        requires
            old(self).active_child_pids@.no_duplicates(),
        ensures
            forall|p: u32|
                final(self).active_child_pids@.contains(p) == (p != pid && old(
                    self,
                ).active_child_pids@.contains(p)),
            final(self).active_child_pids@.no_duplicates(),
            final(self).cwd == old(self).cwd,
            final(self).shell_path == old(self).shell_path,
            final(self).shell_env == old(self).shell_env,
    {
        let ghost before = self.active_child_pids@;
        match self.pid_position(pid) {
            Some(i) => {
                self.active_child_pids.remove(i);
                proof {
                    let after = self.active_child_pids@;
                    assert forall|p: u32| after.contains(p) == (p != pid && before.contains(p)) by {
                        if after.contains(p) {
                            let k = choose|k: int| 0 <= k < after.len() && after[k] == p;
                            assert(before[if k < i {
                                k
                            } else {
                                k + 1
                            }] == p);
                        }
                        if p != pid && before.contains(p) {
                            let k = choose|k: int| 0 <= k < before.len() && before[k] == p;
                            assert(after[if k < i {
                                k
                            } else {
                                k - 1
                            }] == p);
                        }
                    }
                }
            },
            None => {},
        }
    }

    /// Takes the processes that are running, to end them.
    pub fn take_running(&mut self) -> (r: Vec<u32>)
        ensures
            r@ == old(self).active_child_pids@,
            final(self).active_child_pids@ == Seq::<u32>::empty(),
            final(self).cwd == old(self).cwd,
            final(self).shell_path == old(self).shell_path,
            final(self).shell_env == old(self).shell_env,
    {
        let mut taken: Vec<u32> = Vec::new();
        std::mem::swap(&mut taken, &mut self.active_child_pids);
        taken
    }
}

} // verus!
