//! Decoding a file's bytes to text (UTF-8, UTF-8 with BOM, UTF-16 LE/BE with BOM) and the
//! window title.

use crate::search::{is_high_surrogate, is_low_surrogate};
use crate::text::utf16_encode;
use vstd::prelude::*;
use vstd::string::StringExecFns;
use vstd::utf8::{decode_utf8, valid_utf8};

verus! {

/// Calls `String::from_utf8`, which its documentation describes as succeeding exactly when
/// the bytes are UTF-8; the result holds the decoded characters.
#[verifier::external_body]
pub(crate) fn string_from_utf8(bytes: Vec<u8>) -> (text: Option<String>)
    ensures
        text is Some <==> valid_utf8(bytes@),
        text matches Some(s) ==> s@ == decode_utf8(bytes@),
{
    String::from_utf8(bytes).ok()
}

/// Whether the code units from `i` on are well-formed UTF-16: every surrogate is part of
/// a leading-trailing pair.
pub open spec fn utf16_valid_from(t: Seq<u16>, i: int) -> bool
    decreases t.len() - i,
{
    if i < 0 || i >= t.len() {
        true
    } else if is_high_surrogate(t[i]) {
        i + 1 < t.len() && is_low_surrogate(t[i + 1]) && utf16_valid_from(t, i + 2)
    } else if is_low_surrogate(t[i]) {
        false
    } else {
        utf16_valid_from(t, i + 1)
    }
}

/// Calls `String::from_utf16`, which its documentation describes as failing exactly when
/// the units hold invalid UTF-16 (an unpaired surrogate); on success the string is the one
/// whose UTF-16 encoding is the units.
#[verifier::external_body]
pub(crate) fn string_from_utf16(units: &[u16]) -> (text: Option<String>)
    ensures
        text is Some <==> utf16_valid_from(units@, 0),
        text matches Some(s) ==> utf16_encode(s@) == units@,
{
    String::from_utf16(units).ok()
}

/// The code units that pairs of bytes make, in the given byte order.
pub open spec fn utf16_units_of(bytes: Seq<u8>, little_endian: bool) -> Seq<u16> {
    Seq::new(
        bytes.len() / 2,
        |k: int|
            if little_endian {
                (bytes[2 * k] + bytes[2 * k + 1] * 256) as u16
            } else {
                (bytes[2 * k] * 256 + bytes[2 * k + 1]) as u16
            },
    )
}

/// In little-endian order the first byte of each pair is the low byte of the unit, in
/// big-endian order the high byte; the two orders read the same pair swapped.
pub proof fn lemma_utf16_byte_order(bytes: Seq<u8>, k: int)
    requires
        0 <= k < bytes.len() / 2,
    ensures
        utf16_units_of(bytes, true)[k] % 256 == bytes[2 * k],
        utf16_units_of(bytes, true)[k] / 256 == bytes[2 * k + 1],
        utf16_units_of(bytes, false)[k] / 256 == bytes[2 * k],
        utf16_units_of(bytes, false)[k] % 256 == bytes[2 * k + 1],
        utf16_units_of(bytes, true)[k] == utf16_units_of(seq![bytes[2 * k + 1], bytes[2 * k]], false)[0],
{
    assert(2 * k + 1 < bytes.len());
    let lo = bytes[2 * k];
    let hi = bytes[2 * k + 1];
    assert((lo + hi * 256) as u16 == lo + hi * 256);
    assert((hi * 256 + lo) as u16 == hi * 256 + lo);
}

/// The outcome of decoding UTF-16 bytes: the error for an odd length or invalid UTF-16,
/// otherwise the text that those units encode.
pub open spec fn utf16_decoding_ok(bytes: Seq<u8>, little_endian: bool, text: Seq<char>) -> bool {
    bytes.len() % 2 == 0 && utf16_encode(text) == utf16_units_of(bytes, little_endian)
}

/// Decodes UTF-16 bytes without their byte-order mark.
pub fn decode_utf16(bytes: &[u8], little_endian: bool) -> (result: Result<String, String>)
    ensures
        utf16_outcome(bytes@, little_endian, result),
{
    if bytes.len() % 2 != 0 {
        return Err("The UTF-16 file has an invalid byte length.".to_owned());
    }
    let len = bytes.len();
    let count = len / 2;
    let mut values: Vec<u16> = Vec::with_capacity(count);
    for k in 0..count
        invariant
            len == bytes@.len(),
            count == len / 2,
            values@ =~= utf16_units_of(bytes@, little_endian).take(k as int),
    {
        assert(2 * k + 1 < len) by (nonlinear_arith)
            requires
                k < count,
                count == len / 2,
        ;
        let first = bytes[2 * k] as u16;
        let second = bytes[2 * k + 1] as u16;
        let value: u16 = if little_endian {
            first + second * 256
        } else {
            first * 256 + second
        };
        values.push(value);
        assert(values@ =~= utf16_units_of(bytes@, little_endian).take(k + 1));
    }
    assert(values@ =~= utf16_units_of(bytes@, little_endian));
    match string_from_utf16(values.as_slice()) {
        Some(text) => Ok(text),
        None => Err("Could not decode the file as UTF-16.".to_owned()),
    }
}

/// `bytes` starts with `prefix`.
pub open spec fn has_prefix(bytes: Seq<u8>, prefix: Seq<u8>) -> bool {
    bytes.len() >= prefix.len() && bytes.take(prefix.len() as int) == prefix
}

/// The bytes after the first `n`.
fn bytes_after(bytes: &[u8], n: usize) -> (rest: Vec<u8>)
    requires
        n <= bytes@.len(),
    ensures
        rest@ == bytes@.skip(n as int),
{
    let mut rest: Vec<u8> = Vec::with_capacity(bytes.len() - n);
    for i in n..bytes.len()
        invariant
            n <= i <= bytes@.len(),
            rest@ == bytes@.subrange(n as int, i as int),
    {
        rest.push(bytes[i]);
        assert(rest@ =~= bytes@.subrange(n as int, i + 1));
    }
    assert(rest@ =~= bytes@.skip(n as int));
    rest
}

/// Decodes a file's bytes: UTF-8 after a UTF-8 BOM, UTF-16 after a UTF-16 BOM (little- or
/// big-endian), and otherwise UTF-8 without BOM. Text in any other encoding is refused
/// with an error rather than shown with replacement characters.
pub fn decode_text(bytes: Vec<u8>) -> (result: Result<String, String>)
    ensures
        has_prefix(bytes@, seq![0xefu8, 0xbbu8, 0xbfu8]) ==> (if valid_utf8(bytes@.skip(3)) {
            result matches Ok(s) && s@ == decode_utf8(bytes@.skip(3))
        } else {
            result matches Err(e) && e@ == "Could not decode the file as UTF-8."@
        }),
        !has_prefix(bytes@, seq![0xefu8, 0xbbu8, 0xbfu8]) && has_prefix(bytes@, seq![0xffu8, 0xfeu8])
            ==> utf16_outcome(bytes@.skip(2), true, result),
        !has_prefix(bytes@, seq![0xefu8, 0xbbu8, 0xbfu8]) && !has_prefix(bytes@, seq![0xffu8, 0xfeu8])
            && has_prefix(bytes@, seq![0xfeu8, 0xffu8]) ==> utf16_outcome(bytes@.skip(2), false, result),
        !has_prefix(bytes@, seq![0xefu8, 0xbbu8, 0xbfu8]) && !has_prefix(bytes@, seq![0xffu8, 0xfeu8])
            && !has_prefix(bytes@, seq![0xfeu8, 0xffu8]) ==> (if valid_utf8(bytes@) {
            result matches Ok(s) && s@ == decode_utf8(bytes@)
        } else {
            result matches Err(e)
                && e@ == "Unsupported text encoding. Save the file as UTF-8 or UTF-16 with a BOM."@
        }),
{
    let n = bytes.len();
    if n >= 3 && bytes[0] == 0xef && bytes[1] == 0xbb && bytes[2] == 0xbf {
        assert(bytes@.take(3) =~= seq![0xefu8, 0xbbu8, 0xbfu8]);
        let rest = bytes_after(bytes.as_slice(), 3);
        return match string_from_utf8(rest) {
            Some(text) => Ok(text),
            None => Err("Could not decode the file as UTF-8.".to_owned()),
        };
    }
    assert(!has_prefix(bytes@, seq![0xefu8, 0xbbu8, 0xbfu8]));
    if n >= 2 && bytes[0] == 0xff && bytes[1] == 0xfe {
        assert(bytes@.take(2) =~= seq![0xffu8, 0xfeu8]);
        let rest = bytes_after(bytes.as_slice(), 2);
        return decode_utf16(rest.as_slice(), true);
    }
    assert(!has_prefix(bytes@, seq![0xffu8, 0xfeu8]));
    if n >= 2 && bytes[0] == 0xfe && bytes[1] == 0xff {
        assert(bytes@.take(2) =~= seq![0xfeu8, 0xffu8]);
        let rest = bytes_after(bytes.as_slice(), 2);
        return decode_utf16(rest.as_slice(), false);
    }
    assert(!has_prefix(bytes@, seq![0xfeu8, 0xffu8]));
    match string_from_utf8(bytes) {
        Some(text) => Ok(text),
        None => Err("Unsupported text encoding. Save the file as UTF-8 or UTF-16 with a BOM.".to_owned()),
    }
}

/// What decoding UTF-16 bytes (after the BOM) gives, as `decode_utf16` states it.
pub open spec fn utf16_outcome(bytes: Seq<u8>, little_endian: bool, result: Result<String, String>) -> bool {
    &&& bytes.len() % 2 != 0 ==> (result matches Err(e)
        && e@ == "The UTF-16 file has an invalid byte length."@)
    &&& bytes.len() % 2 == 0 && !utf16_valid_from(utf16_units_of(bytes, little_endian), 0)
        ==> (result matches Err(e) && e@ == "Could not decode the file as UTF-16."@)
    &&& bytes.len() % 2 == 0 && utf16_valid_from(utf16_units_of(bytes, little_endian), 0)
        ==> (result matches Ok(s) && utf16_decoding_ok(bytes, little_endian, s@))
}

/// The largest file the viewer opens, in bytes (32 MiB).
pub const MAX_FILE_SIZE: u64 = 33554432;

/// Whether a file of `len` bytes may be opened: `Ok` up to `MAX_FILE_SIZE`, else the
/// error that says the file is too large.
pub fn check_file_size(len: u64) -> (result: Result<(), String>)
    ensures
        result is Ok <==> len <= MAX_FILE_SIZE,
        result matches Err(e) ==> e@ == "The file is too large (maximum: 32 MiB)."@,
{
    if len > MAX_FILE_SIZE {
        Err("The file is too large (maximum: 32 MiB).".to_owned())
    } else {
        Ok(())
    }
}

/// Whether `path` is a bare file name: not empty, not `.` or `..`, and without `/`, `\`
/// or `:`, so that no platform reads a directory, a drive or a prefix in it.
pub open spec fn plain_file_name(path: Seq<char>) -> bool {
    &&& path.len() > 0
    &&& path != seq!['.']
    &&& path != seq!['.', '.']
    &&& forall|i: int| 0 <= i < path.len() ==> #[trigger] path[i] != '/' && path[i] != '\\' && path[i] != ':'
}

/// Whether `s` is a non-empty run of consecutive characters of `path`.
pub open spec fn part_of(s: Seq<char>, path: Seq<char>) -> bool {
    exists|i: int, j: int| 0 <= i < j <= path.len() && s == path.subrange(i, j)
}

/// Whether `path` is `directory/name` with `name` a bare file name and `directory` a
/// relative directory that no platform reads as a root, a drive or a prefix: it is not
/// empty, does not start with `/`, and holds no `\` or `:`.
pub open spec fn in_directory(path: Seq<char>, directory: Seq<char>, name: Seq<char>) -> bool {
    &&& path == directory + seq!['/'] + name
    &&& plain_file_name(name)
    &&& directory.len() > 0
    &&& directory[0] != '/'
    &&& forall|i: int| 0 <= i < directory.len() ==> #[trigger] directory[i] != '\\' && directory[i] != ':'
}

/// Calls `std::path::Path::file_name` and converts the name with `to_string_lossy`. Its
/// documentation describes the result as the final component of the path, with `None`
/// when there is none (an empty path, a root, or one that ends in `..`). Which component
/// that is depends on the platform's path syntax, so the contract claims only what holds
/// on every platform: a name is a non-empty part of the path (the conversion of text that
/// came from a `&str` changes nothing), a bare file name is its own file name, and the
/// file name of `directory/name` is `name` (`/` separates components everywhere).
#[verifier::external_body]
fn path_file_name(path: &str) -> (name: Option<String>)
    ensures
        name matches Some(n) ==> part_of(n@, path@),
        name is None ==> !plain_file_name(path@),
        name matches Some(n) ==> (plain_file_name(path@) ==> n@ == path@),
        name is None ==> forall|q: Seq<char>, f: Seq<char>| !#[trigger] in_directory(path@, q, f),
        name matches Some(n) ==> forall|q: Seq<char>, f: Seq<char>|
            #[trigger] in_directory(path@, q, f) ==> n@ == f,
{
    std::path::Path::new(path).file_name().map(|name| name.to_string_lossy().into_owned())
}

/// The window title for a file name: `<name> - QuietMD`, or `QuietMD` with no file.
pub fn title_for_file_name(file_name: Option<&str>) -> (title: String)
    ensures
        title@ == match file_name {
            Some(name) => name@ + " - QuietMD"@,
            None => "QuietMD"@,
        },
{
    match file_name {
        Some(name) => {
            let mut title = name.to_owned();
            title.append(" - QuietMD");
            title
        },
        None => "QuietMD".to_owned(),
    }
}

/// The window title for an open path: its file name followed by ` - QuietMD`, or `QuietMD`
/// when there is no path or the path has no file name. The file name is a non-empty part of
/// the path; a path that is a bare file name is its own file name, and the file name of
/// `directory/name` is `name`.
pub fn window_title(path: Option<&str>) -> (title: String)
    ensures
        path is None ==> title@ == "QuietMD"@,
        path matches Some(p) ==> (title@ == "QuietMD"@ || exists|name: Seq<char>|
            part_of(name, p@) && title@ == name + " - QuietMD"@),
        path matches Some(p) ==> (plain_file_name(p@) ==> title@ == p@ + " - QuietMD"@),
        path matches Some(p) ==> forall|q: Seq<char>, f: Seq<char>|
            #[trigger] in_directory(p@, q, f) ==> title@ == f + " - QuietMD"@,
{
    let name = match path {
        Some(path) => path_file_name(path),
        None => None,
    };
    match name {
        Some(name) => {
            let title = title_for_file_name(Some(name.as_str()));
            assert(title@ == name@ + " - QuietMD"@);
            title
        },
        None => title_for_file_name(None),
    }
}

} // verus!
