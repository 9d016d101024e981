use vstd::prelude::*;
use vstd::utf8::encode_utf8;

verus! {

/// One match of a regular expression: the byte offset at which it starts, and its
/// capture groups (group 0 is the whole match; a group that took no part is absent).
pub type CaptureView = (int, Seq<Option<Seq<char>>>);

/// The abstract values of a list of matches.
pub open spec fn captures_view(v: Seq<(usize, Vec<Option<String>>)>) -> Seq<CaptureView> {
    v.map_values(
        |c: (usize, Vec<Option<String>>)| (
            c.0 as int,
            c.1@.map_values(
                |g: Option<String>| match g {
                    Some(s) => Some(s@),
                    None => None,
                },
            ),
        ),
    )
}

/// What `regex::Regex::new(pattern)` followed by `captures_iter(text)` yields: the
/// successive non-overlapping matches, or nothing when the pattern does not compile.
pub uninterp spec fn regex_captures(pattern: Seq<char>, text: Seq<char>) -> Option<Seq<CaptureView>>;

/// Compiles `pattern` with `regex::Regex::new` and lists the matches of
/// `captures_iter` on `text`, each as its start offset and its groups. The result
/// is named `regex_captures`; besides, as the crate documents, every start offset
/// lies within the text's UTF-8 bytes.
#[verifier::external_body]
pub(crate) fn regex_captures_all(pattern: &str, text: &str) -> (r: Option<Vec<(usize, Vec<Option<String>>)>>)
    ensures
        match r {
            Some(v) => regex_captures(pattern@, text@) == Some(captures_view(v@)) && forall|k: int|
                0 <= k < v@.len() ==> v@[k].0 <= encode_utf8(text@).len(),
            None => regex_captures(pattern@, text@) is None,
        },
{
    let re = regex::Regex::new(pattern).ok()?;
    Some(re.captures_iter(text).map(|c| {
        let start = c.get(0).map_or(0, |m| m.start());
        (start, c.iter().map(|g| g.map(|m| m.as_str().to_string())).collect())
    }).collect())
}

/// Group `i` of a match, when it took part.
pub open spec fn group(c: CaptureView, i: int) -> Option<Seq<char>> {
    if 0 <= i < c.1.len() {
        c.1[i]
    } else {
        None
    }
}

/// The number of newline bytes among the first `end` bytes.
pub open spec fn newline_count(bytes: Seq<u8>, end: int) -> nat
    decreases end,
{
    if end <= 0 {
        0
    } else {
        newline_count(bytes, end - 1) + if bytes[end - 1] == 10u8 {
            1nat
        } else {
            0nat
        }
    }
}

/// The 1-based line on which byte `offset` of `content` lies.
pub open spec fn line_of(content: Seq<char>, offset: int) -> Option<usize> {
    let n = newline_count(encode_utf8(content), offset) + 1;
    if n <= usize::MAX {
        Some(n as usize)
    } else {
        None
    }
}

/// The 1-based line number of a byte offset: one more than the number of newlines
/// before it.
pub fn byte_offset_to_line(content: &str, offset: usize) -> (r: Option<usize>)
    requires
        offset <= encode_utf8(content@).len(),
    ensures
        r == line_of(content@, offset as int),
{
    let bytes = content.as_bytes();
    let mut count: usize = 0;
    let mut i: usize = 0;
    while i < offset
        invariant
            bytes@ == encode_utf8(content@),
            offset <= bytes@.len(),
            i <= offset,
            count == newline_count(bytes@, i as int),
            count <= i,
        decreases offset - i,
    {
        if bytes[i] == 10u8 {
            count = count + 1;
        }
        i = i + 1;
    }
    count.checked_add(1)
}

/// What `Path::file_stem` gives for a path: the file name without its extension, or
/// nothing when the path has no file name.
pub uninterp spec fn path_file_stem(path: Seq<char>) -> Option<Seq<char>>;

/// `std::path::Path::file_stem`, as a string. The result is named `path_file_stem`.
#[verifier::external_body]
pub(crate) fn file_stem(path: &str) -> (r: Option<String>)
    ensures
        match r {
            Some(s) => path_file_stem(path@) == Some(s@),
            None => path_file_stem(path@) is None,
        },
{
    std::path::Path::new(path).file_stem().and_then(|s| s.to_str()).map(|s| s.to_string())
}

/// What `Path::extension` gives for a path, as a string: the part of the file
/// name after its last dot, when it has one that does not begin it.
pub uninterp spec fn path_extension(path: Seq<char>) -> Option<Seq<char>>;

/// `std::path::Path::extension`, as a string. The result is named `path_extension`.
#[verifier::external_body]
pub(crate) fn extension_of(path: &str) -> (r: Option<String>)
    ensures
        match r {
            Some(s) => path_extension(path@) == Some(s@),
            None => path_extension(path@) is None,
        },
{
    std::path::Path::new(path).extension().and_then(|s| s.to_str()).map(|s| s.to_string())
}

/// What `Path::with_extension("")` gives for a path, rendered with
/// `to_string_lossy`: the path without its file's extension.
pub uninterp spec fn path_without_extension(path: Seq<char>) -> Seq<char>;

/// `std::path::Path::with_extension("")`, rendered as a string. The result is named
/// `path_without_extension`.
#[verifier::external_body]
pub(crate) fn without_extension(path: &str) -> (r: String)
    ensures
        r@ == path_without_extension(path@),
{
    std::path::Path::new(path).with_extension("").to_string_lossy().to_string()
}

} // verus!
