//! Image-asset preparation: decoding pasted image data and choosing the
//! stored file's name and extension.
//!
//! The caller writes the bytes and probes for a free file name; what the
//! bytes are and what the name looks like is decided here.

use vstd::prelude::*;
use base64::Engine;
use crate::errors::{AppError, AppErrorCode};
use crate::hashing::spec_dec_chars;
use crate::paths::{spec_extension, spec_file_name};
use crate::text::{
    chars_to_string, contains_sub, is_ascii_alnum, is_ws, lower_char, lower_chars, rfind_char,
    spec_contains_sub, spec_is_ascii_alnum, spec_is_ws, spec_lower, spec_lower_char,
    spec_rfind_char, spec_trim, spec_trim_matches, str_chars, subvec, trim_chars,
    trim_matches_chars, lemma_rfind_char,
};

verus! {

/// Where a saved image asset ended up: its absolute path and its path
/// relative to the document's directory.
#[derive(Debug)]
pub struct SavedImageAsset {
    pub path: String,
    pub relative_path: String,
}

// --- the decoded bytes ---

/// The outside decode error, opaque to the library.
#[verifier::external_type_specification]
#[verifier::external_body]
pub struct ExDecodeError(base64::DecodeError);

/// What base64's standard-alphabet decoding yields for an input, if it
/// decodes at all: a function of the characters alone.
pub uninterp spec fn base64_decoded(input: Seq<char>) -> Option<Seq<u8>>;

/// Relies on base64's `STANDARD` engine: decoding is deterministic, so
/// the result is named `base64_decoded` of the input.
#[verifier::external_body]
fn base64_decode_standard(input: &str) -> (r: Result<Vec<u8>, base64::DecodeError>)
    ensures
        match r {
            Ok(bytes) => base64_decoded(input@) == Some(bytes@),
            Err(_) => base64_decoded(input@) is None,
        },
{
    base64::engine::general_purpose::STANDARD.decode(input)
}

// --- naming ---

/// One sanitization step: letters and digits pass lowercased, `-` and
/// `_` pass, whitespace becomes `-`, everything else is dropped.
pub open spec fn spec_stem_step(acc: Seq<char>, c: char) -> Seq<char> {
    if spec_is_ascii_alnum(c) {
        acc.push(spec_lower_char(c))
    } else if c == '-' || c == '_' {
        acc.push(c)
    } else if spec_is_ws(c) {
        acc.push('-')
    } else {
        acc
    }
}

pub open spec fn spec_stem_fold(s: Seq<char>) -> Seq<char>
    decreases s.len(),
{
    if s.len() == 0 {
        Seq::empty()
    } else {
        spec_stem_step(spec_stem_fold(s.drop_last()), s.last())
    }
}

/// The sanitized file stem: the fold above with `-` stripped from both
/// ends, and a fixed fallback when nothing is left.
pub open spec fn spec_sanitize_stem(s: Seq<char>) -> Seq<char> {
    let t = spec_trim_matches(spec_stem_fold(s), '-');
    if t.len() == 0 {
        "image"@
    } else {
        t
    }
}

/// Sanitizes a preferred asset name into a safe file stem.
pub fn sanitize_stem(name: &str) -> (r: String)
    ensures
        r@ == spec_sanitize_stem(name@),
{
    let v = str_chars(name);
    let n = v.len();
    let mut acc: Vec<char> = Vec::new();
    let mut i: usize = 0;
    while i < n
        invariant
            n == v@.len(),
            v@ == name@,
            i <= n,
            acc@ == spec_stem_fold(name@.take(i as int)),
        decreases n - i,
    {
        let c = v[i];
        proof {
            assert(name@.take(i + 1 as int).drop_last() =~= name@.take(i as int));
            assert(name@.take(i + 1 as int).last() == name@[i as int]);
        }
        if is_ascii_alnum(c) {
            acc.push(lower_char(c));
        } else if c == '-' || c == '_' {
            acc.push(c);
        } else if is_ws(c) {
            acc.push('-');
        }
        i = i + 1;
    }
    proof {
        assert(name@.take(n as int) =~= name@);
    }
    let trimmed = trim_matches_chars(&acc, '-');
    if trimmed.len() == 0 {
        "image".to_owned()
    } else {
        chars_to_string(&trimmed)
    }
}

/// The lowercased extension chosen from a MIME type, by the substrings
/// it mentions.
pub open spec fn spec_ext_from_mime(mime: Seq<char>) -> Option<Seq<char>> {
    let l = spec_lower(mime);
    if spec_contains_sub(l, "png"@) {
        Some("png"@)
    } else if spec_contains_sub(l, "jpeg"@) || spec_contains_sub(l, "jpg"@) {
        Some("jpg"@)
    } else if spec_contains_sub(l, "gif"@) {
        Some("gif"@)
    } else if spec_contains_sub(l, "webp"@) {
        Some("webp"@)
    } else if spec_contains_sub(l, "bmp"@) {
        Some("bmp"@)
    } else if spec_contains_sub(l, "svg"@) {
        Some("svg"@)
    } else {
        None
    }
}

/// The stored extension a MIME type implies.
pub fn ext_from_mime(mime_type: &str) -> (r: Option<&'static str>)
    ensures
        match r {
            Some(e) => spec_ext_from_mime(mime_type@) == Some(e@),
            None => spec_ext_from_mime(mime_type@) is None,
        },
{
    let v = str_chars(mime_type);
    let l = lower_chars(&v);
    if contains_sub(&l, &str_chars("png")) {
        Some("png")
    } else if contains_sub(&l, &str_chars("jpeg")) || contains_sub(&l, &str_chars("jpg")) {
        Some("jpg")
    } else if contains_sub(&l, &str_chars("gif")) {
        Some("gif")
    } else if contains_sub(&l, &str_chars("webp")) {
        Some("webp")
    } else if contains_sub(&l, &str_chars("bmp")) {
        Some("bmp")
    } else if contains_sub(&l, &str_chars("svg")) {
        Some("svg")
    } else {
        None
    }
}

/// `Path::file_stem` of a file name: what precedes the last `.`, the
/// whole name when there is no `.` or only a leading one.
pub open spec fn spec_file_stem(name: Seq<char>) -> Seq<char> {
    match spec_rfind_char(name, '.') {
        Some(i) => if i == 0 {
            name
        } else {
            name.take(i)
        },
        None => name,
    }
}

/// The candidate file name for a stored asset: the sanitized stem, the
/// timestamp, an optional collision counter, and the extension.
pub fn asset_file_name(stem: &str, now_ms: u64, counter: Option<u32>, extension: &str) -> (r:
    String)
    ensures
        r@ == (match counter {
            Option::Some(c) => stem@ + "-"@ + spec_dec_chars(now_ms) + "-"@ + spec_dec_chars(
                c as u64,
            ) + "."@ + extension@,
            Option::None => stem@ + "-"@ + spec_dec_chars(now_ms) + "."@ + extension@,
        }),
{
    let mut out = stem.to_owned();
    out.append("-");
    let now_dec = crate::hashing::u64_to_dec(now_ms);
    out.append(now_dec.as_str());
    match counter {
        Option::Some(c) => {
            out.append("-");
            let c_dec = crate::hashing::u64_to_dec(c as u64);
            out.append(c_dec.as_str());
        },
        Option::None => {},
    }
    out.append(".");
    out.append(extension);
    out
}

// --- preparing a pasted image ---

/// A pasted image, ready to store: its sanitized stem, its extension,
/// and its decoded bytes.
#[derive(Debug)]
pub struct PreparedImageAsset {
    pub stem: String,
    pub extension: String,
    pub bytes: Vec<u8>,
}

/// The base64 payload of a data string: what follows the last comma
/// (the whole string when it has none), trimmed.
pub open spec fn spec_clean_base64(data: Seq<char>) -> Seq<char> {
    spec_trim(
        match spec_rfind_char(data, ',') {
            Some(i) => data.skip(i + 1),
            None => data,
        },
    )
}

/// The name the pasted image goes by: the given file name, or `image`
/// when that is blank.
pub open spec fn spec_source_name(file_name: Seq<char>) -> Seq<char> {
    if spec_trim(file_name).len() == 0 {
        "image"@
    } else {
        file_name
    }
}

/// The extension a pasted image is stored under: what the MIME type
/// implies, else the source name's extension lowercased, else `png`.
pub open spec fn spec_asset_extension(file_name: Seq<char>, mime: Seq<char>) -> Seq<char> {
    match spec_ext_from_mime(mime) {
        Some(e) => e,
        None => match spec_extension(spec_source_name(file_name)) {
            Some(e) => spec_lower(e),
            None => "png"@,
        },
    }
}

/// The stem a pasted image is stored under, before sanitization.
pub open spec fn spec_asset_stem_source(file_name: Seq<char>) -> Seq<char> {
    let nm = spec_file_name(spec_source_name(file_name));
    if nm.len() == 0 {
        "image"@
    } else {
        spec_file_stem(nm)
    }
}

/// Decodes a pasted image and chooses its stored stem and extension.
///
/// Fails with `Io` exactly when the base64 payload does not decode.
pub fn prepare_image_asset(file_name: &str, mime_type: &str, base64_data: &str) -> (r: Result<
    PreparedImageAsset,
    AppError,
>)
    ensures
        (base64_decoded(spec_clean_base64(base64_data@)) is None) <==> (r is Err),
        r matches Err(e) ==> e.code == AppErrorCode::Io,
        r matches Ok(p) ==> Some(p.bytes@) == base64_decoded(spec_clean_base64(base64_data@))
            && p.extension@ == spec_asset_extension(file_name@, mime_type@) && p.stem@
            == spec_sanitize_stem(spec_asset_stem_source(file_name@)),
{
    let dv = str_chars(base64_data);
    let dn = dv.len();
    let payload = match rfind_char(&dv, ',') {
        Some(i) => {
            proof {
                lemma_rfind_char(dv@, ',');
            }
            let t = subvec(&dv, i + 1, dn);
            proof {
                assert(t@ =~= base64_data@.skip(i + 1 as int));
            }
            t
        },
        None => dv,
    };
    let clean = trim_chars(&payload);
    let clean_str = chars_to_string(&clean);
    let bytes = match base64_decode_standard(clean_str.as_str()) {
        Ok(bytes) => bytes,
        Err(e) => {
            return Err(AppError::new(AppErrorCode::Io, e.to_string()));
        },
    };
    let fv = str_chars(file_name);
    let ftrim = trim_chars(&fv);
    let source_name: String = if ftrim.len() == 0 {
        "image".to_owned()
    } else {
        file_name.to_owned()
    };
    let extension: String = match ext_from_mime(mime_type) {
        Some(e) => e.to_owned(),
        None => {
            match crate::paths::ext_from_path(source_name.as_str()) {
                Some(e) => e,
                None => "png".to_owned(),
            }
        },
    };
    let nm = crate::paths::file_name_string(source_name.as_str());
    let nv = str_chars(nm.as_str());
    let stem_source: String = if nv.len() == 0 {
        "image".to_owned()
    } else {
        match rfind_char(&nv, '.') {
            Some(i) => {
                proof {
                    lemma_rfind_char(nv@, '.');
                }
                if i == 0 {
                    nm
                } else {
                    let t = subvec(&nv, 0, i);
                    proof {
                        assert(t@ =~= nm@.take(i as int));
                    }
                    chars_to_string(&t)
                }
            },
            None => nm,
        }
    };
    let stem = sanitize_stem(stem_source.as_str());
    Ok(PreparedImageAsset { stem, extension, bytes })
}

} // verus!
