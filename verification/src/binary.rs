//! Files: what an upload says of them, and what a file and its description become
//! in the workspace.
use vstd::prelude::*;
#[allow(unused_imports)]
use vstd::utf8::{encode_utf8, encode_utf8_valid_utf8, valid_utf8};

#[allow(unused_imports)]
use crate::candidate::option_view;
use crate::error::ApiError;
#[allow(unused_imports)]
use crate::error::{refusal, ApiErrorV};
#[allow(unused_imports)]
use crate::history::outcome;
use crate::json::Json;
#[allow(unused_imports)]
use crate::json::{integer, object, optional_integer, JsonV};
use crate::outside::{guess_media_type, sha256_hex};
#[allow(unused_imports)]
use crate::outside::{path_media_type, text_digest};
use crate::paths::{portable_path_key, validate_public_path, validate_sha256};
#[allow(unused_imports)]
use crate::paths::{digest_value, managed, path_key, safe_path};
use crate::text::{
    any, before, cat, cat3, decimal_of_natural, parse_integer, parse_natural, same, trim,
    utf8_text,
};
#[allow(unused_imports)]
use crate::text::{decimal, integer_value, natural_value, trimmed};

verus! {

/// The most bytes a file has that is uploaded as a stream.
pub const MAX_STREAMED_BINARY_BYTES: u64 = 4_294_967_296;

/// The greatest mode with portable permission bits alone.
pub const MAX_PORTABLE_MODE: u32 = 0o777;

/// The most bytes the media type of a file has.
pub const MAX_MEDIA_TYPE_BYTES: usize = 255;

// ---------------------------------------------------------------------------
// The form of an upload
// ---------------------------------------------------------------------------

/// What the fields of an upload have said so far.
#[derive(Debug)]
pub struct UploadForm {
    pub path: Option<String>,
    pub media_type: Option<String>,
    pub description: Option<String>,
    pub provenance: Option<String>,
    pub limitations: Option<String>,
    pub mtime_ns: Option<i64>,
    pub mode: Option<u32>,
    pub expected_version: Option<i64>,
    pub expected_content_hash: Option<String>,
    pub companion_format: Option<String>,
    pub companion_path: Option<String>,
    pub companion_sha256: Option<String>,
    pub companion_mtime_ns: Option<i64>,
    pub companion_mode: Option<u32>,
    pub has_file: bool,
}

impl UploadForm {
    /// A form without any field.
    pub fn empty() -> (r: UploadForm)
        ensures
            r == (UploadForm {
                path: None,
                media_type: None,
                description: None,
                provenance: None,
                limitations: None,
                mtime_ns: None,
                mode: None,
                expected_version: None,
                expected_content_hash: None,
                companion_format: None,
                companion_path: None,
                companion_sha256: None,
                companion_mtime_ns: None,
                companion_mode: None,
                has_file: false,
            }),
    {
        UploadForm {
            path: None,
            media_type: None,
            description: None,
            provenance: None,
            limitations: None,
            mtime_ns: None,
            mode: None,
            expected_version: None,
            expected_content_hash: None,
            companion_format: None,
            companion_path: None,
            companion_sha256: None,
            companion_mtime_ns: None,
            companion_mode: None,
            has_file: false,
        }
    }

    /// The form with a file, whose type counts where none was named before. A second
    /// file is refused.
    pub fn with_file(self, content_type: Option<String>) -> (r: Result<UploadForm, ApiError>)
        ensures
            refusal(r) == if self.has_file {
                Some(ApiErrorV::Invalid("workspace binary upload accepts exactly one file"@))
            } else {
                None
            },
            r is Ok ==> r->Ok_0 == (UploadForm {
                has_file: true,
                media_type: match self.media_type {
                    Some(t) => Some(t),
                    None => content_type,
                },
                ..self
            }),
    {
        if self.has_file {
            return Err(ApiError::invalid("workspace binary upload accepts exactly one file"));
        }
        let media_type = match self.media_type {
            Some(t) => Some(t),
            None => content_type,
        };
        Ok(UploadForm { has_file: true, media_type, ..self })
    }
}

/// The most bytes a field of an upload has; nothing where there is no such field.
pub open spec fn field_bytes(name: Seq<char>) -> Option<int> {
    if name == "path"@ {
        Some(1024)
    } else if name == "media_type"@ {
        Some(255)
    } else if name == "description"@ {
        Some(256_000)
    } else if name == "provenance"@ {
        Some(32_000)
    } else if name == "limitations"@ {
        Some(32_000)
    } else if name == "mtime_ns"@ {
        Some(32)
    } else if name == "mode"@ {
        Some(16)
    } else if name == "expected_version"@ {
        Some(32)
    } else if name == "expected_content_hash"@ {
        Some(80)
    } else if name == "portable_companion_format"@ {
        Some(120)
    } else if name == "portable_companion_path"@ {
        Some(1024)
    } else if name == "portable_companion_sha256"@ {
        Some(80)
    } else if name == "portable_companion_mtime_ns"@ {
        Some(32)
    } else if name == "portable_companion_mode"@ {
        Some(16)
    } else {
        None
    }
}

/// The most bytes a field of an upload has.
pub fn field_limit(name: &str) -> (r: Result<usize, ApiError>)
    ensures
        match r {
            Ok(n) => field_bytes(name@) == Some(n as int),
            Err(e) => field_bytes(name@) is None && e@ == ApiErrorV::Invalid(
                "unsupported binary upload field "@ + name@,
            ),
        },
{
    if same(name, "path") {
        Ok(1024)
    } else if same(name, "media_type") {
        Ok(255)
    } else if same(name, "description") {
        Ok(256_000)
    } else if same(name, "provenance") {
        Ok(32_000)
    } else if same(name, "limitations") {
        Ok(32_000)
    } else if same(name, "mtime_ns") {
        Ok(32)
    } else if same(name, "mode") {
        Ok(16)
    } else if same(name, "expected_version") {
        Ok(32)
    } else if same(name, "expected_content_hash") {
        Ok(80)
    } else if same(name, "portable_companion_format") {
        Ok(120)
    } else if same(name, "portable_companion_path") {
        Ok(1024)
    } else if same(name, "portable_companion_sha256") {
        Ok(80)
    } else if same(name, "portable_companion_mtime_ns") {
        Ok(32)
    } else if same(name, "portable_companion_mode") {
        Ok(16)
    } else {
        Err(ApiError::invalid(cat("unsupported binary upload field ", name).as_str()))
    }
}

/// Why the bytes of a field are refused: they are too many, or no text.
pub open spec fn field_refusal(name: Seq<char>, bytes: Seq<u8>, limit: int) -> Option<ApiErrorV> {
    if bytes.len() > limit {
        Some(
            ApiErrorV::Public(
                413,
                "binary_metadata_too_large"@,
                name + " is limited to "@ + (decimal(limit) + " bytes"@),
            ),
        )
    } else if !valid_utf8(bytes) {
        Some(ApiErrorV::Invalid(name + " must be UTF-8"@))
    } else {
        None
    }
}

/// The text of a field that is not the file.
pub fn read_small_field(name: &str, bytes: &Vec<u8>, limit: usize) -> (r: Result<String, ApiError>)
    ensures
        refusal(r) == field_refusal(name@, bytes@, limit as int),
        r matches Ok(text) ==> encode_utf8(text@) == bytes@,
{
    if bytes.len() > limit {
        let message = cat3(
            name,
            " is limited to ",
            cat(decimal_of_natural(limit as u64).as_str(), " bytes").as_str(),
        );
        return Err(ApiError::public(413, "binary_metadata_too_large", message.as_str()));
    }
    match utf8_text(bytes) {
        Some(text) => {
            proof {
                encode_utf8_valid_utf8(text@);
            }
            Ok(text)
        },
        None => Err(ApiError::invalid(cat(name, " must be UTF-8").as_str())),
    }
}

/// The form with one more field, whose value is the last one given; why it is
/// refused otherwise.
pub open spec fn form_with(form: UploadForm, name: Seq<char>, value: String) -> Result<
    UploadForm,
    ApiErrorV,
> {
    let number = integer_value(value@);
    let mode = natural_value(value@, u32::MAX as int);
    if name == "path"@ {
        Ok(UploadForm { path: Some(value), ..form })
    } else if name == "media_type"@ {
        Ok(UploadForm { media_type: Some(value), ..form })
    } else if name == "description"@ {
        Ok(UploadForm { description: Some(value), ..form })
    } else if name == "provenance"@ {
        Ok(UploadForm { provenance: Some(value), ..form })
    } else if name == "limitations"@ {
        Ok(UploadForm { limitations: Some(value), ..form })
    } else if name == "mtime_ns"@ {
        match number {
            Some(n) => Ok(UploadForm { mtime_ns: Some(n as i64), ..form }),
            None => Err(ApiErrorV::Invalid("mtime_ns must be an integer"@)),
        }
    } else if name == "mode"@ {
        match mode {
            Some(n) => if n > MAX_PORTABLE_MODE {
                Err(ApiErrorV::Invalid("mode may contain only portable permission bits"@))
            } else {
                Ok(UploadForm { mode: Some(n as u32), ..form })
            },
            None => Err(ApiErrorV::Invalid("mode must be an integer"@)),
        }
    } else if name == "expected_version"@ {
        match number {
            Some(n) => Ok(UploadForm { expected_version: Some(n as i64), ..form }),
            None => Err(ApiErrorV::Invalid("expected_version must be an integer"@)),
        }
    } else if name == "expected_content_hash"@ {
        Ok(UploadForm { expected_content_hash: Some(value), ..form })
    } else if name == "portable_companion_format"@ {
        Ok(UploadForm { companion_format: Some(value), ..form })
    } else if name == "portable_companion_path"@ {
        Ok(UploadForm { companion_path: Some(value), ..form })
    } else if name == "portable_companion_sha256"@ {
        Ok(UploadForm { companion_sha256: Some(value), ..form })
    } else if name == "portable_companion_mtime_ns"@ {
        match number {
            Some(n) => Ok(UploadForm { companion_mtime_ns: Some(n as i64), ..form }),
            None => Err(ApiErrorV::Invalid("portable_companion_mtime_ns must be an integer"@)),
        }
    } else if name == "portable_companion_mode"@ {
        match mode {
            Some(n) => Ok(UploadForm { companion_mode: Some(n as u32), ..form }),
            None => Err(ApiErrorV::Invalid("portable_companion_mode must be an integer"@)),
        }
    } else {
        Err(ApiErrorV::Invalid("unsupported binary upload field "@ + name))
    }
}

fn number_of(value: &str, message: &str) -> (r: Result<i64, ApiError>)
    ensures
        match r {
            Ok(n) => integer_value(value@) == Some(n as int),
            Err(e) => integer_value(value@) is None && e@ == ApiErrorV::Invalid(message@),
        },
{
    match parse_integer(value) {
        Some(n) => Ok(n),
        None => Err(ApiError::invalid(message)),
    }
}

/// The form with one more field.
pub fn put_field(form: UploadForm, name: &str, value: String) -> (r: Result<UploadForm, ApiError>)
    ensures
        outcome(r) == form_with(form, name@, value),
{
    if same(name, "path") {
        Ok(UploadForm { path: Some(value), ..form })
    } else if same(name, "media_type") {
        Ok(UploadForm { media_type: Some(value), ..form })
    } else if same(name, "description") {
        Ok(UploadForm { description: Some(value), ..form })
    } else if same(name, "provenance") {
        Ok(UploadForm { provenance: Some(value), ..form })
    } else if same(name, "limitations") {
        Ok(UploadForm { limitations: Some(value), ..form })
    } else if same(name, "mtime_ns") {
        match number_of(value.as_str(), "mtime_ns must be an integer") {
            Ok(n) => Ok(UploadForm { mtime_ns: Some(n), ..form }),
            Err(e) => Err(e),
        }
    } else if same(name, "mode") {
        match parse_natural(value.as_str()) {
            Some(n) => if n > MAX_PORTABLE_MODE {
                Err(ApiError::invalid("mode may contain only portable permission bits"))
            } else {
                Ok(UploadForm { mode: Some(n), ..form })
            },
            None => Err(ApiError::invalid("mode must be an integer")),
        }
    } else if same(name, "expected_version") {
        match number_of(value.as_str(), "expected_version must be an integer") {
            Ok(n) => Ok(UploadForm { expected_version: Some(n), ..form }),
            Err(e) => Err(e),
        }
    } else if same(name, "expected_content_hash") {
        Ok(UploadForm { expected_content_hash: Some(value), ..form })
    } else if same(name, "portable_companion_format") {
        Ok(UploadForm { companion_format: Some(value), ..form })
    } else if same(name, "portable_companion_path") {
        Ok(UploadForm { companion_path: Some(value), ..form })
    } else if same(name, "portable_companion_sha256") {
        Ok(UploadForm { companion_sha256: Some(value), ..form })
    } else if same(name, "portable_companion_mtime_ns") {
        match number_of(value.as_str(), "portable_companion_mtime_ns must be an integer") {
            Ok(n) => Ok(UploadForm { companion_mtime_ns: Some(n), ..form }),
            Err(e) => Err(e),
        }
    } else if same(name, "portable_companion_mode") {
        match parse_natural(value.as_str()) {
            Some(n) => Ok(UploadForm { companion_mode: Some(n), ..form }),
            None => Err(ApiError::invalid("portable_companion_mode must be an integer")),
        }
    } else {
        Err(ApiError::invalid(cat("unsupported binary upload field ", name).as_str()))
    }
}

/// The media type of a file: the one that was named, unless it is blank, or the one
/// that goes with its path.
pub open spec fn media_type_of(named: Option<Seq<char>>, path: Seq<char>) -> Seq<char> {
    match named {
        Some(t) => if trimmed(t).len() > 0 {
            t
        } else {
            path_media_type(path)
        },
        None => path_media_type(path),
    }
}

/// The media type of a file.
pub fn choose_media_type(named: &Option<String>, path: &str) -> (r: String)
    ensures
        r@ == media_type_of(option_view(*named), path@),
{
    match named {
        Some(t) => if trim(t.as_str()).as_str().unicode_len() > 0 {
            t.clone()
        } else {
            guess_media_type(path)
        },
        None => guess_media_type(path),
    }
}

/// The description of a file that an evaluation copies byte for byte.
#[derive(Clone, Debug)]
pub struct PortableBinaryCompanion {
    pub path: String,
    pub content: String,
    pub content_sha256: String,
    pub modified_unix_ns: Option<i64>,
    pub mode: Option<u32>,
}

/// Whether an upload asks for a description that is copied byte for byte.
pub open spec fn asks_for_copy(
    format: Option<String>,
    path: Option<String>,
    sha256: Option<String>,
    mtime: Option<i64>,
    mode: Option<u32>,
) -> bool {
    format is Some || path is Some || sha256 is Some || mtime is Some || mode is Some
}

/// Why such a description is not accepted: it is for evaluations alone, has a path
/// of its own, and its bytes are the ones that were announced.
pub open spec fn copy_refusal(
    evaluation: bool,
    binary_path: Seq<char>,
    description: Option<Seq<char>>,
    format: Option<Seq<char>>,
    path: Option<Seq<char>>,
    sha256: Option<Seq<char>>,
    mode: Option<u32>,
) -> Option<ApiErrorV> {
    if !evaluation {
        Some(
            ApiErrorV::Invalid(
                "exact portable binary companions require an evaluation-only stack"@,
            ),
        )
    } else if format != Some("brunn-tier-a-portable-companion@v1"@) {
        Some(ApiErrorV::Invalid("portable_companion_format is missing or unsupported"@))
    } else if path is None {
        Some(ApiErrorV::Invalid("portable_companion_path is required"@))
    } else if !safe_path(path->0) {
        Some(ApiErrorV::Invalid("path must be a safe relative workspace path"@))
    } else if managed(path->0) {
        Some(ApiErrorV::Invalid("the .brunn namespace is reserved for workspace-managed entries"@))
    } else if path_key(path->0) == path_key(binary_path) {
        Some(ApiErrorV::Invalid("portable binary and companion paths must be different"@))
    } else if description is None {
        Some(ApiErrorV::Invalid("exact portable companion content is required"@))
    } else if sha256 is None {
        Some(ApiErrorV::Invalid("portable_companion_sha256 is required"@))
    } else if digest_value(sha256->0) is None {
        Some(ApiErrorV::Invalid("expected_content_hash must be a SHA-256 value"@))
    } else if text_digest(description->0) != digest_value(sha256->0)->0 {
        Some(
            ApiErrorV::Conflict(
                "portable_companion_hash_mismatch"@,
                "portable companion bytes do not match their pinned SHA-256"@,
                object().with("path"@, JsonV::Text(path->0)),
            ),
        )
    } else if mode is Some && mode->0 > MAX_PORTABLE_MODE {
        Some(
            ApiErrorV::Invalid(
                "portable_companion_mode may contain only portable permission bits"@,
            ),
        )
    } else {
        None
    }
}

/// The description that an upload wants copied byte for byte, where it wants one.
pub fn prepare_portable_binary_companion(
    evaluation_api_enabled: bool,
    binary_path: &str,
    description: &Option<String>,
    format: &Option<String>,
    path: &Option<String>,
    content_sha256: &Option<String>,
    modified_unix_ns: Option<i64>,
    mode: Option<u32>,
) -> (r: Result<Option<PortableBinaryCompanion>, ApiError>)
    ensures
        refusal(r) == if asks_for_copy(*format, *path, *content_sha256, modified_unix_ns, mode) {
            copy_refusal(
                evaluation_api_enabled,
                binary_path@,
                option_view(*description),
                option_view(*format),
                option_view(*path),
                option_view(*content_sha256),
                mode,
            )
        } else {
            None
        },
        r matches Ok(companion) ==> match companion {
            None => !asks_for_copy(*format, *path, *content_sha256, modified_unix_ns, mode),
            Some(c) => {
                &&& asks_for_copy(*format, *path, *content_sha256, modified_unix_ns, mode)
                &&& c.path@ == path->0@
                &&& c.content@ == description->0@
                &&& c.content_sha256@ == text_digest(description->0@)
                &&& c.modified_unix_ns == modified_unix_ns
                &&& c.mode == mode
            },
        },
{
    if !(format.is_some() || path.is_some() || content_sha256.is_some()
        || modified_unix_ns.is_some() || mode.is_some()) {
        return Ok(None);
    }
    if !evaluation_api_enabled {
        return Err(
            ApiError::invalid("exact portable binary companions require an evaluation-only stack"),
        );
    }
    let known = match format {
        Some(f) => same(f.as_str(), "brunn-tier-a-portable-companion@v1"),
        None => false,
    };
    if !known {
        return Err(ApiError::invalid("portable_companion_format is missing or unsupported"));
    }
    let path = match path {
        Some(p) => p,
        None => {
            return Err(ApiError::invalid("portable_companion_path is required"));
        },
    };
    match validate_public_path(path.as_str()) {
        Ok(_) => {},
        Err(e) => {
            return Err(e);
        },
    }
    if same(portable_path_key(path.as_str()).as_str(), portable_path_key(binary_path).as_str()) {
        return Err(ApiError::invalid("portable binary and companion paths must be different"));
    }
    let content = match description {
        Some(d) => d,
        None => {
            return Err(ApiError::invalid("exact portable companion content is required"));
        },
    };
    let expected = match content_sha256 {
        Some(hash) => match validate_sha256(hash.as_str()) {
            Ok(expected) => expected,
            Err(e) => {
                return Err(e);
            },
        },
        None => {
            return Err(ApiError::invalid("portable_companion_sha256 is required"));
        },
    };
    let actual = sha256_hex(content.as_str());
    if !same(actual.as_str(), expected.as_str()) {
        return Err(
            ApiError::conflict(
                "portable_companion_hash_mismatch",
                "portable companion bytes do not match their pinned SHA-256",
                Json::object().with("path", Json::text(path.as_str())),
            ),
        );
    }
    match mode {
        Some(m) => {
            if m > MAX_PORTABLE_MODE {
                return Err(
                    ApiError::invalid(
                        "portable_companion_mode may contain only portable permission bits",
                    ),
                );
            }
        },
        None => {},
    }
    Ok(
        Some(
            PortableBinaryCompanion {
                path: path.clone(),
                content: content.clone(),
                content_sha256: actual,
                modified_unix_ns,
                mode,
            },
        ),
    )
}

/// What a complete upload says.
#[derive(Debug)]
pub struct UploadPlan {
    pub path: String,
    pub media_type: String,
    pub expected_sha256: String,
    pub companion: Option<PortableBinaryCompanion>,
}

/// Why a form is not carried out.
pub open spec fn form_refusal(form: UploadForm, evaluation: bool) -> Option<ApiErrorV> {
    if form.path is None {
        Some(ApiErrorV::Invalid("binary path is required"@))
    } else if !safe_path(form.path->0@) {
        Some(ApiErrorV::Invalid("path must be a safe relative workspace path"@))
    } else if managed(form.path->0@) {
        Some(ApiErrorV::Invalid("the .brunn namespace is reserved for workspace-managed entries"@))
    } else if form.expected_content_hash is None {
        Some(ApiErrorV::Invalid("expected_content_hash is required"@))
    } else if digest_value(form.expected_content_hash->0@) is None {
        Some(ApiErrorV::Invalid("expected_content_hash must be a SHA-256 value"@))
    } else if !form.has_file {
        Some(ApiErrorV::Invalid("binary file is required"@))
    } else if asks_for_copy(
        form.companion_format,
        form.companion_path,
        form.companion_sha256,
        form.companion_mtime_ns,
        form.companion_mode,
    ) {
        copy_refusal(
            evaluation,
            form.path->0@,
            option_view(form.description),
            option_view(form.companion_format),
            option_view(form.companion_path),
            option_view(form.companion_sha256),
            form.companion_mode,
        )
    } else {
        None
    }
}

/// What a complete upload says.
pub fn complete_form(form: &UploadForm, evaluation_api_enabled: bool) -> (r: Result<
    UploadPlan,
    ApiError,
>)
    ensures
        refusal(r) == form_refusal(*form, evaluation_api_enabled),
        r matches Ok(plan) ==> {
            &&& plan.path@ == form.path->0@
            &&& plan.media_type@ == media_type_of(option_view(form.media_type), form.path->0@)
            &&& Some(plan.expected_sha256@) == digest_value(form.expected_content_hash->0@)
            &&& match plan.companion {
                None => !asks_for_copy(
                    form.companion_format,
                    form.companion_path,
                    form.companion_sha256,
                    form.companion_mtime_ns,
                    form.companion_mode,
                ),
                Some(c) => {
                    &&& c.path@ == form.companion_path->0@
                    &&& c.content@ == form.description->0@
                    &&& c.content_sha256@ == text_digest(form.description->0@)
                    &&& c.modified_unix_ns == form.companion_mtime_ns
                    &&& c.mode == form.companion_mode
                },
            }
        },
{
    let path = match &form.path {
        Some(path) => path.clone(),
        None => {
            return Err(ApiError::invalid("binary path is required"));
        },
    };
    match validate_public_path(path.as_str()) {
        Ok(_) => {},
        Err(e) => {
            return Err(e);
        },
    }
    let expected_sha256 = match &form.expected_content_hash {
        Some(hash) => match validate_sha256(hash.as_str()) {
            Ok(expected) => expected,
            Err(e) => {
                return Err(e);
            },
        },
        None => {
            return Err(ApiError::invalid("expected_content_hash is required"));
        },
    };
    if !form.has_file {
        return Err(ApiError::invalid("binary file is required"));
    }
    let media_type = choose_media_type(&form.media_type, path.as_str());
    let companion = match prepare_portable_binary_companion(
        evaluation_api_enabled,
        path.as_str(),
        &form.description,
        &form.companion_format,
        &form.companion_path,
        &form.companion_sha256,
        form.companion_mtime_ns,
        form.companion_mode,
    ) {
        Ok(companion) => companion,
        Err(e) => {
            return Err(e);
        },
    };
    Ok(UploadPlan { path, media_type, expected_sha256, companion })
}

pub open spec fn hash_mismatch(path: Seq<char>) -> ApiErrorV {
    ApiErrorV::Conflict(
        "content_hash_mismatch"@,
        "uploaded binary bytes changed after the caller calculated their hash"@,
        object().with("path"@, JsonV::Text(path)),
    )
}

fn content_hash_mismatch(path: &str) -> (r: ApiError)
    ensures
        r@ == hash_mismatch(path@),
{
    ApiError::conflict(
        "content_hash_mismatch",
        "uploaded binary bytes changed after the caller calculated their hash",
        Json::object().with("path", Json::text(path)),
    )
}

/// Accepts the bytes that were stored, by the digest that the store gives them.
pub fn check_stored(path: &str, stored_sha256: &str, expected: &str) -> (r: Result<(), ApiError>)
    ensures
        refusal(r) == match digest_value(stored_sha256@) {
            None => Some(ApiErrorV::Invalid("expected_content_hash must be a SHA-256 value"@)),
            Some(actual) => if actual == expected@ {
                None
            } else {
                Some(hash_mismatch(path@))
            },
        },
{
    match validate_sha256(stored_sha256) {
        Ok(actual) => if same(actual.as_str(), expected) {
            Ok(())
        } else {
            Err(content_hash_mismatch(path))
        },
        Err(e) => Err(e),
    }
}

pub open spec fn portable_json(mtime: Option<i64>, mode: Option<u32>) -> JsonV {
    object().with("modified_unix_ns"@, optional_integer(mtime)).with(
        "mode"@,
        match mode {
            Some(m) => integer(m as int),
            None => JsonV::Null,
        },
    )
}

/// When a file was changed, and its mode.
pub fn portable_metadata(mtime_ns: Option<i64>, mode: Option<u32>) -> (r: Json)
    ensures
        r@ == portable_json(mtime_ns, mode),
{
    let mode = match mode {
        Some(m) => Json::natural(m as u64),
        None => Json::Null,
    };
    Json::object().with("modified_unix_ns", Json::optional_integer(mtime_ns)).with("mode", mode)
}

/// When the file of a form was changed, and its mode, where the form says either.
pub fn form_portable(form: &UploadForm) -> (r: Option<Json>)
    ensures
        match r {
            Some(j) => (form.mtime_ns is Some || form.mode is Some) && j@ == portable_json(
                form.mtime_ns,
                form.mode,
            ),
            None => form.mtime_ns is None && form.mode is None,
        },
{
    if form.mtime_ns.is_some() || form.mode.is_some() {
        Some(portable_metadata(form.mtime_ns, form.mode))
    } else {
        None
    }
}

}
