//! Streams of bytes, and what becomes of a file and its description once the bytes
//! are stored.
use vstd::prelude::*;

use crate::auth::{AuthContext, Capability};
use crate::binary::{
    choose_media_type, portable_metadata, PortableBinaryCompanion, MAX_MEDIA_TYPE_BYTES,
    MAX_PORTABLE_MODE, MAX_STREAMED_BINARY_BYTES,
};
#[allow(unused_imports)]
use crate::binary::{hash_mismatch, media_type_of, portable_json};
#[allow(unused_imports)]
use crate::candidate::option_view;
use crate::envelope::{Reply, ResponseStatus};
#[allow(unused_imports)]
use crate::envelope::ReplyV;
use crate::error::ApiError;
#[allow(unused_imports)]
use crate::error::{refusal, ApiErrorV};
#[allow(unused_imports)]
use crate::history::outcome;
use crate::json::Json;
#[allow(unused_imports)]
use crate::json::{alike, integer, items_view, object, JsonV};
use crate::outside::{
    digest_finalize, digest_new, digest_update, entry_ref, hex_encode, json_quote, sha256_hex,
    StreamDigest,
};
#[allow(unused_imports)]
use crate::outside::{
    digested, entry_ref_text, hex_text, json_string, sha256_digest, text_digest,
};
use crate::paths::{portable_path_key, validate_path, validate_public_path, validate_sha256};
#[allow(unused_imports)]
use crate::paths::{digest_value, managed, path_key, safe_path, utf8_len};
use crate::read::EntryRow;
use crate::render::time_value;
#[allow(unused_imports)]
use crate::render::{hash_text, time_json};
use crate::requests::{markdown_media_type, StreamingBinaryQuery, WriteRequest};
use crate::text::{
    before, byte_len, cat, cat3, decimal_of_natural, same, split_at, trim, truncate_chars,
    CharClass,
};
#[allow(unused_imports)]
use crate::text::{decimal, split, text_less, texts, trimmed, truncated};
use crate::upsert::{entry_version_conflict, MarkdownUpsertResult, WriteOperation};
#[allow(unused_imports)]
use crate::upsert::version_conflict;
#[allow(unused_imports)]
use crate::write::bare_digest;
use crate::write::strip_digest_name;

verus! {

// ---------------------------------------------------------------------------
// Streams
// ---------------------------------------------------------------------------

/// The permission to upload one file.
#[derive(Clone, Debug)]
pub struct UploadPermission {
    pub path: String,
    pub media_type: String,
    pub sha256: Option<String>,
    pub expected_version: Option<i64>,
    pub size_bytes: u64,
    pub entry_id: u128,
    pub version_id: u128,
}

/// What is uploaded and where: with a permission, only what the permission says.
pub open spec fn permitted_query(
    permission: Option<UploadPermission>,
    query: StreamingBinaryQuery,
    asked: StreamingBinaryQuery,
) -> bool {
    match permission {
        None => query == asked,
        Some(p) => {
            &&& query.path@ == p.path@
            &&& query.media_type is Some && query.media_type->0@ == p.media_type@
            &&& query.expected_content_hash@ == match p.sha256 {
                Some(hash) => hash@,
                None => Seq::empty(),
            }
            &&& query.expected_version == p.expected_version
            &&& query.mtime_ns is None
            &&& query.mode is None
            &&& query.provenance is None
        },
    }
}

/// What is uploaded and where. With a permission it comes from the permission
/// alone, and the content type has to be the permitted one; without one the
/// credential has to allow uploads.
pub fn stream_query(
    auth: &AuthContext,
    permission: &Option<UploadPermission>,
    query: StreamingBinaryQuery,
    content_type: &Option<String>,
) -> (r: Result<StreamingBinaryQuery, ApiError>)
    ensures
        refusal(r) == match permission {
            Some(p) => if option_view(*content_type) == Some(p.media_type@) {
                None
            } else {
                Some(ApiErrorV::Invalid("Content-Type must match the upload permission"@))
            },
            None => if auth.allows(Capability::Stage) {
                None
            } else {
                Some(ApiErrorV::Capability(Capability::Stage))
            },
        },
        r is Ok ==> permitted_query(*permission, r->Ok_0, query),
{
    match permission {
        Some(p) => {
            let matching = match content_type {
                Some(t) => same(t.as_str(), p.media_type.as_str()),
                None => false,
            };
            if !matching {
                return Err(ApiError::invalid("Content-Type must match the upload permission"));
            }
            let hash = match &p.sha256 {
                Some(hash) => hash.clone(),
                None => String::new(),
            };
            assert(p.sha256 is None ==> hash@ =~= Seq::<char>::empty());
            Ok(
                StreamingBinaryQuery {
                    path: p.path.clone(),
                    media_type: Some(p.media_type.clone()),
                    expected_content_hash: hash,
                    mtime_ns: None,
                    mode: None,
                    provenance: None,
                    expected_version: p.expected_version,
                },
            )
        },
        None => match auth.require(Capability::Stage) {
            Ok(_) => Ok(query),
            Err(e) => Err(e),
        },
    }
}

/// Why a stream is not taken.
pub open spec fn stream_refusal(permitted: bool, query: StreamingBinaryQuery) -> Option<ApiErrorV> {
    if !safe_path(query.path@) {
        Some(ApiErrorV::Invalid("path must be a safe relative workspace path"@))
    } else if managed(query.path@) {
        Some(ApiErrorV::Invalid("the .brunn namespace is reserved for workspace-managed entries"@))
    } else if !(permitted && query.expected_content_hash@.len() == 0) && digest_value(
        query.expected_content_hash@,
    ) is None {
        Some(ApiErrorV::Invalid("expected_content_hash must be a SHA-256 value"@))
    } else if utf8_len(media_type_of(option_view(query.media_type), query.path@))
        > MAX_MEDIA_TYPE_BYTES {
        Some(ApiErrorV::Invalid("media_type is limited to 255 characters"@))
    } else if query.mode is Some && query.mode->0 > MAX_PORTABLE_MODE {
        Some(ApiErrorV::Invalid("mode may contain only portable permission bits"@))
    } else {
        None
    }
}

/// The media type of a stream, and the digest its bytes have to have. Only a
/// permission may leave the digest open.
pub fn stream_plan(permitted: bool, query: &StreamingBinaryQuery) -> (r: Result<
    (String, Option<String>),
    ApiError,
>)
    ensures
        refusal(r) == stream_refusal(permitted, *query),
        r matches Ok(plan) ==> {
            &&& plan.0@ == media_type_of(option_view(query.media_type), query.path@)
            &&& option_view(plan.1) == if permitted && query.expected_content_hash@.len() == 0 {
                None
            } else {
                digest_value(query.expected_content_hash@)
            }
        },
{
    match validate_public_path(query.path.as_str()) {
        Ok(_) => {},
        Err(e) => {
            return Err(e);
        },
    }
    let expected: Option<String> = if permitted
        && query.expected_content_hash.as_str().unicode_len() == 0 {
        None
    } else {
        match validate_sha256(query.expected_content_hash.as_str()) {
            Ok(hash) => Some(hash),
            Err(e) => {
                return Err(e);
            },
        }
    };
    let media_type = choose_media_type(&query.media_type, query.path.as_str());
    if byte_len(media_type.as_str()) > MAX_MEDIA_TYPE_BYTES {
        return Err(ApiError::invalid("media_type is limited to 255 characters"));
    }
    match query.mode {
        Some(mode) => {
            if mode > MAX_PORTABLE_MODE {
                return Err(ApiError::invalid("mode may contain only portable permission bits"));
            }
        },
        None => {},
    }
    Ok((media_type, expected))
}

/// The size of a stream after one more chunk; the stream ends where it grows beyond
/// what any file, or the permitted one, may have.
pub open spec fn grown(size: int, chunk: int, permitted_size: Option<u64>) -> Result<
    int,
    ApiErrorV,
> {
    if size + chunk > u64::MAX {
        Err(ApiErrorV::Invalid("binary upload size overflow"@))
    } else if size + chunk > MAX_STREAMED_BINARY_BYTES {
        Err(
            ApiErrorV::Public(
                413,
                "binary_too_large"@,
                "workspace binary uploads are limited to 4 GiB"@,
            ),
        )
    } else if permitted_size is Some && size + chunk > permitted_size->0 {
        Err(ApiErrorV::Invalid("uploaded size does not match size_bytes"@))
    } else {
        Ok(size + chunk)
    }
}

/// The digest of a stream of which nothing came yet.
pub fn stream_start() -> (r: StreamDigest)
    ensures
        digested(r) == Seq::<u8>::empty(),
{
    digest_new()
}

/// The size of a stream after one more chunk, which also goes into its digest.
pub fn stream_chunk(
    size: u64,
    chunk: &[u8],
    permitted_size: Option<u64>,
    digest: &mut StreamDigest,
) -> (r: Result<u64, ApiError>)
    ensures
        match r {
            Ok(total) => grown(size as int, chunk@.len() as int, permitted_size) == Ok::<
                int,
                ApiErrorV,
            >(total as int) && digested(*final(digest)) == digested(*old(digest)) + chunk@,
            Err(e) => grown(size as int, chunk@.len() as int, permitted_size) == Err::<
                int,
                ApiErrorV,
            >(e@) && *final(digest) == *old(digest),
        },
{
    let total: u64 = match size.checked_add(chunk.len() as u64) {
        Some(total) => total,
        None => {
            return Err(ApiError::invalid("binary upload size overflow"));
        },
    };
    if total > MAX_STREAMED_BINARY_BYTES {
        return Err(
            ApiError::public(
                413,
                "binary_too_large",
                "workspace binary uploads are limited to 4 GiB",
            ),
        );
    }
    match permitted_size {
        Some(limit) => {
            if total > limit {
                return Err(ApiError::invalid("uploaded size does not match size_bytes"));
            }
        },
        None => {},
    }
    digest_update(digest, chunk);
    Ok(total)
}

/// Why a stream that has ended is not accepted.
pub open spec fn end_refusal(
    permitted_size: Option<u64>,
    size: int,
    expected: Option<Seq<char>>,
    bytes: Seq<u8>,
) -> Option<ApiErrorV> {
    if permitted_size is Some && size != permitted_size->0 {
        Some(ApiErrorV::Invalid("uploaded size does not match size_bytes"@))
    } else if permitted_size is Some && expected is Some && expected->0 != hex_text(
        sha256_digest(bytes),
    ) {
        Some(ApiErrorV::Invalid("uploaded SHA-256 does not match sha256"@))
    } else {
        None
    }
}

/// Accepts a stream that has ended. Under a permission its size is the permitted
/// one, and so are its bytes where the permission names their digest.
pub fn stream_end(
    permitted_size: Option<u64>,
    size: u64,
    expected: &Option<String>,
    digest: StreamDigest,
) -> (r: Result<(), ApiError>)
    ensures
        refusal(r) == end_refusal(permitted_size, size as int, option_view(*expected), digested(digest)),
{
    match permitted_size {
        Some(limit) => {
            if size != limit {
                return Err(ApiError::invalid("uploaded size does not match size_bytes"));
            }
            let came = hex_encode(&digest_finalize(digest));
            match expected {
                Some(hash) => {
                    if !same(hash.as_str(), came.as_str()) {
                        return Err(ApiError::invalid("uploaded SHA-256 does not match sha256"));
                    }
                },
                None => {},
            }
        },
        None => {},
    }
    Ok(())
}

/// Accepts the bytes of a stream that were stored, by the digest that the store
/// gives them.
pub fn check_stream_stored(path: &str, stored_sha256: &str, expected: &Option<String>) -> (r:
    Result<(), ApiError>)
    ensures
        refusal(r) == if expected is Some && bare_digest(stored_sha256@) != expected->0@ {
            Some(hash_mismatch(path@))
        } else {
            None
        },
{
    match expected {
        Some(hash) => {
            if !same(strip_digest_name(stored_sha256).as_str(), hash.as_str()) {
                return Err(
                    ApiError::conflict(
                        "content_hash_mismatch",
                        "uploaded binary bytes changed after the caller calculated their hash",
                        Json::object().with("path", Json::text(path)),
                    ),
                );
            }
        },
        None => {},
    }
    Ok(())
}

/// The size and the bytes of a stream with these chunks; nothing where it ends
/// before.
pub open spec fn streamed(chunks: Seq<Seq<u8>>, permitted_size: Option<u64>) -> Option<
    (int, Seq<u8>),
>
    decreases chunks.len(),
{
    if chunks.len() == 0 {
        Some((0, Seq::empty()))
    } else {
        match streamed(chunks.drop_last(), permitted_size) {
            Some((size, bytes)) => match grown(size, chunks.last().len() as int, permitted_size) {
                Ok(total) => Some((total, bytes + chunks.last())),
                Err(_) => None,
            },
            None => None,
        }
    }
}

/// A stream that is taken whole has the bytes of its chunks, one after another, and
/// their size, which is within the limit for every file and within the permitted
/// size.
pub proof fn lemma_streams_are_bounded(chunks: Seq<Seq<u8>>, permitted_size: Option<u64>)
    requires
        streamed(chunks, permitted_size) is Some,
    ensures
        (streamed(chunks, permitted_size)->0).1 == chunks.flatten(),
        (streamed(chunks, permitted_size)->0).0 == chunks.flatten().len(),
        chunks.flatten().len() <= MAX_STREAMED_BINARY_BYTES,
        permitted_size matches Some(limit) ==> chunks.flatten().len() <= limit,
    decreases chunks.len(),
{
    if chunks.len() > 0 {
        lemma_streams_are_bounded(chunks.drop_last(), permitted_size);
        chunks.lemma_flatten_and_flatten_alt_are_equivalent();
        chunks.drop_last().lemma_flatten_and_flatten_alt_are_equivalent();
    }
}

// ---------------------------------------------------------------------------
// A file and its description
// ---------------------------------------------------------------------------

/// A file whose bytes are stored.
#[derive(Debug)]
pub struct BinaryUpload {
    pub path: String,
    pub media_type: String,
    pub stored_hash: String,
    pub size_bytes: u64,
    pub object_version_id: Option<String>,
    pub description: Option<String>,
    pub provenance: Option<String>,
    pub limitations: Option<String>,
    pub portable: Option<Json>,
    pub expected_version: Option<i64>,
    pub companion: Option<PortableBinaryCompanion>,
}

/// What was said, unless it is blank.
pub open spec fn said(text: Option<String>) -> Option<Seq<char>> {
    match text {
        Some(t) => if trimmed(t@).len() > 0 {
            Some(trimmed(t@))
        } else {
            None
        },
        None => None,
    }
}

fn said_text(text: &Option<String>) -> (r: Option<String>)
    ensures
        option_view(r) == said(*text),
{
    match text {
        Some(t) => {
            let t = trim(t.as_str());
            if t.as_str().unicode_len() > 0 {
                Some(t)
            } else {
                None
            }
        },
        None => None,
    }
}

/// Where the description of a file is kept unless the upload says so: at a place
/// that depends on the key of the path alone.
pub open spec fn description_path(path: Seq<char>) -> Seq<char> {
    ".brunn/binaries/"@ + truncated(text_digest(path_key(path)), 32) + ".md"@
}

pub open spec fn companion_path_of(upload: BinaryUpload) -> Seq<char> {
    match upload.companion {
        Some(c) => c.path@,
        None => description_path(upload.path@),
    }
}

/// The name of a file: the last part of its path.
pub open spec fn file_name(path: Seq<char>) -> Seq<char> {
    split(path, CharClass::Is('/')).last()
}

/// How the description of a file came to be.
pub open spec fn description_status_of(upload: BinaryUpload) -> Seq<char> {
    if upload.companion is Some {
        "byte_copied"@
    } else if said(upload.description) is Some {
        "provided"@
    } else {
        "pending"@
    }
}

pub open spec fn description_of(upload: BinaryUpload) -> Seq<char> {
    match said(upload.description) {
        Some(t) => t,
        None => "Binary file `"@ + upload.path@ + "` ("@ + upload.media_type@ + ", "@ + decimal(
            upload.size_bytes as int,
        ) + " bytes). Content-specific description is pending background inspection."@,
    }
}

pub open spec fn provenance_of(upload: BinaryUpload) -> Seq<char> {
    match said(upload.provenance) {
        Some(t) => t,
        None => "Uploaded through the Brunn workspace binary API."@,
    }
}

pub open spec fn limitations_of(upload: BinaryUpload) -> Seq<char> {
    match said(upload.limitations) {
        Some(t) => t,
        None => "The immutable binary bytes are authoritative. This Markdown companion is for retrieval and may be incomplete."@,
    }
}

/// The document that describes a file.
pub open spec fn companion_text(upload: BinaryUpload) -> Seq<char> {
    match upload.companion {
        Some(c) => c.content@,
        None => "---\nbrunn_kind: binary_description\nbinary_path: "@ + json_string(upload.path@)
            + "\ncontent_hash: "@ + json_string("sha256:"@ + bare_digest(upload.stored_hash@))
            + "\nmedia_type: "@ + json_string(upload.media_type@) + "\nsize_bytes: "@ + decimal(
            upload.size_bytes as int,
        ) + "\ndescription_status: "@ + (if said(upload.description) is Some {
            "provided"@
        } else {
            "pending"@
        }) + "\n---\n\n# Binary: "@ + file_name(upload.path@) + "\n\n## Description\n\n"@
            + description_of(upload) + "\n\n## Provenance\n\n"@ + provenance_of(upload)
            + "\n\n## Limitations\n\n"@ + limitations_of(upload) + "\n"@,
    }
}

pub open spec fn optional_value(value: Option<Json>) -> JsonV {
    match value {
        Some(v) => v@,
        None => JsonV::Null,
    }
}

/// What is kept with the document that describes a file.
pub open spec fn companion_metadata(upload: BinaryUpload) -> JsonV {
    object().with("kind"@, JsonV::Text("binary_description"@)).with(
        "binary_path"@,
        JsonV::Text(upload.path@),
    ).with("content_hash"@, JsonV::Text(hash_text(bare_digest(upload.stored_hash@)))).with(
        "portable"@,
        match upload.companion {
            Some(c) => portable_json(c.modified_unix_ns, c.mode),
            None => optional_value(upload.portable),
        },
    ).with("description_status"@, JsonV::Text(description_status_of(upload))).with(
        "_brunn_import"@,
        match upload.companion {
            Some(c) => object().with(
                "format"@,
                JsonV::Text("brunn-workspace-import-manifest@v1"@),
            ).with(
                "portable_companion_format"@,
                JsonV::Text("brunn-tier-a-portable-companion@v1"@),
            ).with("content_sha256"@, JsonV::Text(hash_text(c.content_sha256@))),
            None => JsonV::Null,
        },
    )
}

/// What a file becomes.
#[derive(Debug)]
pub struct BinaryPlan {
    pub content_sha256: String,
    pub title: String,
    pub companion_path: String,
    pub description_status: String,
    pub provenance: String,
    pub limitations: String,
    /// The write of the document that describes the file.
    pub companion: WriteRequest,
}

impl BinaryPlan {
    /// That this is what an upload becomes, but for the document that describes it.
    pub open spec fn is_of(self, upload: BinaryUpload) -> bool {
        &&& self.content_sha256@ == bare_digest(upload.stored_hash@)
        &&& self.title@ == file_name(upload.path@)
        &&& self.companion_path@ == companion_path_of(upload)
        &&& self.description_status@ == description_status_of(upload)
        &&& self.provenance@ == provenance_of(upload)
        &&& self.limitations@ == limitations_of(upload)
    }
}

fn put_value(value: &Option<Json>) -> (r: Json)
    ensures
        r@ == optional_value(*value),
{
    match value {
        Some(v) => v.copy(),
        None => Json::Null,
    }
}

fn quoted(text: &str) -> (r: String)
    ensures
        r@ == json_string(text@),
{
    match json_quote(text) {
        Some(t) => t,
        None => String::new(),
    }
}

fn or_default(text: Option<String>, default: &str) -> (r: String)
    ensures
        r@ == match text {
            Some(t) => t@,
            None => default@,
        },
{
    match text {
        Some(t) => t,
        None => default.to_owned(),
    }
}

/// The document that describes a file.
fn describe(upload: &BinaryUpload, title: &str, provenance: &str, limitations: &str) -> (r: String)
    requires
        title@ == file_name(upload.path@),
        provenance@ == provenance_of(*upload),
        limitations@ == limitations_of(*upload),
    ensures
        r@ == companion_text(*upload),
{
    match &upload.companion {
        Some(c) => c.content.clone(),
        None => {
            let supplied = said_text(&upload.description);
            let status = if supplied.is_some() {
                "provided"
            } else {
                "pending"
            };
            let size = decimal_of_natural(upload.size_bytes);
            let description = match supplied {
                Some(t) => t,
                None => {
                    let mut t = "Binary file `".to_owned();
                    t.append(upload.path.as_str());
                    t.append("` (");
                    t.append(upload.media_type.as_str());
                    t.append(", ");
                    t.append(size.as_str());
                    t.append(
                        " bytes). Content-specific description is pending background inspection.",
                    );
                    t
                },
            };
            let hash = cat("sha256:", strip_digest_name(upload.stored_hash.as_str()).as_str());
            let mut out = "---\nbrunn_kind: binary_description\nbinary_path: ".to_owned();
            out.append(quoted(upload.path.as_str()).as_str());
            out.append("\ncontent_hash: ");
            out.append(quoted(hash.as_str()).as_str());
            out.append("\nmedia_type: ");
            out.append(quoted(upload.media_type.as_str()).as_str());
            out.append("\nsize_bytes: ");
            out.append(size.as_str());
            out.append("\ndescription_status: ");
            out.append(status);
            out.append("\n---\n\n# Binary: ");
            out.append(title);
            out.append("\n\n## Description\n\n");
            out.append(description.as_str());
            out.append("\n\n## Provenance\n\n");
            out.append(provenance);
            out.append("\n\n## Limitations\n\n");
            out.append(limitations);
            out.append("\n");
            out
        },
    }
}

/// What a file becomes: its digest, its title, and the document that describes it.
pub fn plan_binary(upload: &BinaryUpload) -> (r: Result<BinaryPlan, ApiError>)
    requires
        safe_path(upload.path@),
    ensures
        refusal(r) == if upload.object_version_id is None {
            Some(
                ApiErrorV::Internal("versioned object upload returned no exact version ID"@),
            )
        } else if !safe_path(companion_path_of(*upload)) {
            Some(ApiErrorV::Invalid("path must be a safe relative workspace path"@))
        } else {
            None
        },
        r matches Ok(plan) ==> {
            &&& plan.is_of(*upload)
            &&& plan.companion.path@ == companion_path_of(*upload)
            &&& plan.companion.content@ == companion_text(*upload)
            &&& plan.companion.media_type@ == "text/markdown"@
            &&& plan.companion.expected_version is None
            &&& plan.companion.idempotency_key is None
            &&& plan.companion.metadata@ == companion_metadata(*upload)
        },
{
    if upload.object_version_id.is_none() {
        return Err(
            ApiError::internal("versioned object upload returned no exact version ID"),
        );
    }
    let content_sha256 = strip_digest_name(upload.stored_hash.as_str());
    let companion_path = match &upload.companion {
        Some(c) => c.path.clone(),
        None => {
            let digest = sha256_hex(portable_path_key(upload.path.as_str()).as_str());
            cat3(".brunn/binaries/", truncate_chars(digest.as_str(), 32).as_str(), ".md")
        },
    };
    match validate_path(companion_path.as_str()) {
        Ok(_) => {},
        Err(e) => {
            return Err(e);
        },
    }
    let parts = split_at(upload.path.as_str(), CharClass::Is('/'));
    proof {
        crate::text::lemma_first_from(upload.path@, CharClass::Is('/'), 0);
        assert(split(upload.path@, CharClass::Is('/')).len() > 0);
    }
    let last: usize = parts.len() - 1;
    assert(texts(parts@).last() == parts@[last as int]@);
    let title = parts[last].clone();
    let provenance = or_default(
        said_text(&upload.provenance),
        "Uploaded through the Brunn workspace binary API.",
    );
    let limitations = or_default(
        said_text(&upload.limitations),
        "The immutable binary bytes are authoritative. This Markdown companion is for retrieval and may be incomplete.",
    );
    let content = describe(upload, title.as_str(), provenance.as_str(), limitations.as_str());
    let status = if upload.companion.is_some() {
        "byte_copied"
    } else if said_text(&upload.description).is_some() {
        "provided"
    } else {
        "pending"
    };
    let portable = match &upload.companion {
        Some(c) => portable_metadata(c.modified_unix_ns, c.mode),
        None => put_value(&upload.portable),
    };
    let import = match &upload.companion {
        Some(c) => Json::object().with(
            "format",
            Json::text("brunn-workspace-import-manifest@v1"),
        ).with("portable_companion_format", Json::text("brunn-tier-a-portable-companion@v1")).with(
            "content_sha256",
            Json::Text(cat("sha256:", c.content_sha256.as_str())),
        ),
        None => Json::Null,
    };
    let metadata = Json::object().with("kind", Json::text("binary_description")).with(
        "binary_path",
        Json::text(upload.path.as_str()),
    ).with("content_hash", Json::Text(cat("sha256:", content_sha256.as_str()))).with(
        "portable",
        portable,
    ).with("description_status", Json::text(status)).with("_brunn_import", import);
    Ok(
        BinaryPlan {
            content_sha256,
            title,
            companion_path: companion_path.clone(),
            description_status: status.to_owned(),
            provenance,
            limitations,
            companion: WriteRequest {
                path: companion_path,
                content,
                media_type: markdown_media_type(),
                expected_version: None,
                idempotency_key: None,
                metadata,
            },
        },
    )
}

/// The keys of two paths in the order in which they are locked, so that two uploads
/// never wait for each other.
pub fn lock_keys(path: &str, companion_path: &str) -> (r: (String, String))
    ensures
        !text_less(r.1@, r.0@),
        (r.0@ == path_key(path@) && r.1@ == path_key(companion_path@)) || (r.0@ == path_key(
            companion_path@,
        ) && r.1@ == path_key(path@)),
{
    let a = portable_path_key(path);
    let b = portable_path_key(companion_path);
    if before(b.as_str(), a.as_str()) {
        proof {
            crate::text::lemma_text_less_asymmetric(b@, a@);
        }
        (b, a)
    } else {
        (a, b)
    }
}

/// Files whose paths have the same key share the place of their description, unless
/// an upload names another one.
pub proof fn lemma_description_follows_key(first: BinaryUpload, second: BinaryUpload)
    requires
        path_key(first.path@) == path_key(second.path@),
        first.companion is None,
        second.companion is None,
    ensures
        companion_path_of(first) == companion_path_of(second),
{
}

// ---------------------------------------------------------------------------
// What an upload does to the file that is there
// ---------------------------------------------------------------------------

/// The file that is there, in its current version.
#[derive(Debug)]
pub struct ExistingBinary {
    pub id: u128,
    pub kind: String,
    pub media_type: String,
    pub current_version: i64,
    pub deleted: bool,
    pub content_sha256: String,
    pub metadata: Json,
}

/// What an upload does.
#[derive(Clone, Copy, Debug, PartialEq, Eq, Structural)]
pub enum BinaryAction {
    /// Nothing: the bytes and what is said of them are there.
    Keep,
    /// The bytes are there; what is said of them changes, or the file is brought
    /// back.
    Annotate,
    /// A version is added.
    Append { entry_id: u128, version: i64, operation: WriteOperation },
}

/// Accepts the path of a file, where it is not that of a document.
pub fn check_binary_kind(path: &str, existing: &Option<ExistingBinary>) -> (r: Result<(), ApiError>)
    ensures
        refusal(r) == match existing {
            Some(row) => if row.kind@ == "binary"@ {
                None
            } else {
                Some(
                    ApiErrorV::Conflict(
                        "entry_kind_conflict"@,
                        "a Markdown entry already uses this binary path"@,
                        object().with("path"@, JsonV::Text(path@)),
                    ),
                )
            },
            None => None,
        },
{
    match existing {
        Some(row) => {
            if !same(row.kind.as_str(), "binary") {
                return Err(
                    ApiError::conflict(
                        "entry_kind_conflict",
                        "a Markdown entry already uses this binary path",
                        Json::object().with("path", Json::text(path)),
                    ),
                );
            }
        },
        None => {},
    }
    Ok(())
}

pub open spec fn put_if(j: JsonV, put: bool, key: Seq<char>, value: JsonV) -> JsonV {
    if put {
        j.with(key, value)
    } else {
        j
    }
}

/// What is kept with a file whose bytes were there: what the upload says of them in
/// the place of what was said before.
pub open spec fn annotated(upload: BinaryUpload, metadata: JsonV) -> JsonV {
    let described = put_if(
        metadata.with("companion_path"@, JsonV::Text(companion_path_of(upload))),
        upload.portable is Some,
        "portable"@,
        optional_value(upload.portable),
    ).with("description_status"@, JsonV::Text(description_status_of(upload)));
    put_if(
        put_if(
            described,
            upload.provenance is Some,
            "provenance"@,
            JsonV::Text(provenance_of(upload)),
        ),
        upload.limitations is Some,
        "limitations"@,
        JsonV::Text(limitations_of(upload)),
    )
}

/// What is kept with a file whose bytes are new.
pub open spec fn fresh_metadata(upload: BinaryUpload) -> JsonV {
    object().with("companion_path"@, JsonV::Text(companion_path_of(upload))).with(
        "description_status"@,
        JsonV::Text(description_status_of(upload)),
    ).with("portable"@, optional_value(upload.portable)).with(
        "provenance"@,
        JsonV::Text(provenance_of(upload)),
    ).with("limitations"@, JsonV::Text(limitations_of(upload)))
}

/// Whether the bytes of an upload are there already. A permitted upload always
/// makes a version.
pub open spec fn bytes_are_there(
    upload: BinaryUpload,
    existing: Option<ExistingBinary>,
    permitted: bool,
) -> bool {
    !permitted && existing is Some && existing->0.content_sha256@ == bare_digest(
        upload.stored_hash@,
    )
}

pub open spec fn binary_version(existing: Option<ExistingBinary>) -> int {
    match existing {
        Some(row) => row.current_version as int,
        None => 0,
    }
}

/// What an upload does to the file that is there.
pub open spec fn decided_binary(
    upload: BinaryUpload,
    existing: Option<ExistingBinary>,
    permitted: bool,
    new_id: u128,
) -> Result<BinaryAction, ApiErrorV> {
    if bytes_are_there(upload, existing, permitted) {
        let row = existing->0;
        if row.deleted || !alike(annotated(upload, row.metadata@), row.metadata@)
            || row.media_type@ != upload.media_type@ {
            Ok(BinaryAction::Annotate)
        } else {
            Ok(BinaryAction::Keep)
        }
    } else if upload.expected_version matches Some(e) && e != binary_version(existing) && !(
    existing matches Some(row) && row.deleted && e == 0) {
        Err(
            version_conflict(
                upload.path@,
                upload.expected_version->0 as int,
                binary_version(existing),
            ),
        )
    } else {
        Ok(
            match existing {
                Some(row) => BinaryAction::Append {
                    entry_id: row.id,
                    version: (row.current_version + 1) as i64,
                    operation: WriteOperation::Update,
                },
                None => BinaryAction::Append {
                    entry_id: new_id,
                    version: 1,
                    operation: WriteOperation::Create,
                },
            },
        )
    }
}

/// What is kept with a file whose bytes were there.
pub fn annotated_metadata(upload: &BinaryUpload, plan: &BinaryPlan, metadata: &Json) -> (r: Json)
    requires
        plan.is_of(*upload),
    ensures
        r@ == annotated(*upload, metadata@),
{
    let mut out = metadata.copy().with("companion_path", Json::text(plan.companion_path.as_str()));
    match &upload.portable {
        Some(portable) => {
            out = out.with("portable", portable.copy());
        },
        None => {},
    }
    out = out.with("description_status", Json::text(plan.description_status.as_str()));
    if upload.provenance.is_some() {
        out = out.with("provenance", Json::text(plan.provenance.as_str()));
    }
    if upload.limitations.is_some() {
        out = out.with("limitations", Json::text(plan.limitations.as_str()));
    }
    out
}

/// What is kept with a file whose bytes are new.
pub fn new_binary_metadata(upload: &BinaryUpload, plan: &BinaryPlan) -> (r: Json)
    requires
        plan.is_of(*upload),
    ensures
        r@ == fresh_metadata(*upload),
{
    Json::object().with("companion_path", Json::text(plan.companion_path.as_str())).with(
        "description_status",
        Json::text(plan.description_status.as_str()),
    ).with("portable", put_value(&upload.portable)).with(
        "provenance",
        Json::text(plan.provenance.as_str()),
    ).with("limitations", Json::text(plan.limitations.as_str()))
}

/// What an upload does to the file that is there. `permitted` says whether it comes
/// with a permission of its own, `new_id` is the identity of a new file.
pub fn decide_binary(
    upload: &BinaryUpload,
    plan: &BinaryPlan,
    existing: &Option<ExistingBinary>,
    permitted: bool,
    new_id: u128,
) -> (r: Result<BinaryAction, ApiError>)
    requires
        plan.is_of(*upload),
        binary_version(*existing) < i64::MAX,
    ensures
        outcome(r) == decided_binary(*upload, *existing, permitted, new_id),
{
    let row = match existing {
        Some(row) => row,
        None => {
            match upload.expected_version {
                Some(expected) => {
                    if expected != 0 {
                        return Err(entry_version_conflict(upload.path.as_str(), expected, 0));
                    }
                },
                None => {},
            }
            return Ok(
                BinaryAction::Append {
                    entry_id: new_id,
                    version: 1,
                    operation: WriteOperation::Create,
                },
            );
        },
    };
    if !permitted && same(row.content_sha256.as_str(), plan.content_sha256.as_str()) {
        let metadata = annotated_metadata(upload, plan, &row.metadata);
        if row.deleted || !metadata.same(&row.metadata) || !same(
            row.media_type.as_str(),
            upload.media_type.as_str(),
        ) {
            return Ok(BinaryAction::Annotate);
        }
        return Ok(BinaryAction::Keep);
    }
    match upload.expected_version {
        Some(expected) => {
            if row.current_version != expected && !(row.deleted && expected == 0) {
                return Err(
                    entry_version_conflict(upload.path.as_str(), expected, row.current_version),
                );
            }
        },
        None => {},
    }
    Ok(
        BinaryAction::Append {
            entry_id: row.id,
            version: row.current_version + 1,
            operation: WriteOperation::Update,
        },
    )
}

/// Uploading again what was just annotated changes nothing.
pub proof fn lemma_annotation_is_idempotent(
    upload: BinaryUpload,
    existing: ExistingBinary,
    permitted: bool,
    new_id: u128,
    row: ExistingBinary,
)
    requires
        decided_binary(upload, Some(existing), permitted, new_id) == Ok::<BinaryAction, ApiErrorV>(
            BinaryAction::Annotate,
        ),
        existing.metadata@ is Object,
        !row.deleted,
        row.content_sha256@ == existing.content_sha256@,
        row.media_type@ == upload.media_type@,
        row.metadata@ == annotated(upload, existing.metadata@),
    ensures
        decided_binary(upload, Some(row), permitted, new_id) == Ok::<BinaryAction, ApiErrorV>(
            BinaryAction::Keep,
        ),
{
    lemma_annotated_twice(upload, existing.metadata@);
}

proof fn lemma_annotated_twice(upload: BinaryUpload, metadata: JsonV)
    requires
        metadata is Object,
    ensures
        annotated(upload, annotated(upload, metadata)) == annotated(upload, metadata),
{
    let once = annotated(upload, metadata);
    let twice = annotated(upload, once);
    reveal_strlit("companion_path");
    reveal_strlit("portable");
    reveal_strlit("description_status");
    reveal_strlit("provenance");
    reveal_strlit("limitations");
    assert("companion_path"@.len() == 14);
    assert("portable"@.len() == 8);
    assert("description_status"@.len() == 18);
    assert("provenance"@.len() == 10);
    assert("limitations"@.len() == 11);
    assert(twice->Object_0 =~= once->Object_0);
}

pub open spec fn description_kept(upload: BinaryUpload, action: BinaryAction) -> bool {
    !(action is Append) && said(upload.description) is None && upload.companion is None
}

/// Whether the description that is there is kept: the bytes were there and the
/// upload says nothing new.
pub fn keeps_description(upload: &BinaryUpload, action: BinaryAction) -> (r: bool)
    ensures
        r == description_kept(*upload, action),
{
    let there = match action {
        BinaryAction::Append { .. } => false,
        _ => true,
    };
    there && said_text(&upload.description).is_none() && upload.companion.is_none()
}

pub open spec fn description_queued(
    upload: BinaryUpload,
    action: BinaryAction,
    permitted: bool,
    kept: bool,
) -> bool {
    !permitted && upload.companion is None && said(upload.description) is None && (action is Append
        || !kept)
}

/// Whether a description is to be written in the background: nobody gave one, and
/// the bytes are new or none was there. `kept` says whether one was there and kept.
pub fn queues_description(
    upload: &BinaryUpload,
    action: BinaryAction,
    permitted: bool,
    kept: bool,
) -> (r: bool)
    ensures
        r == description_queued(*upload, action, permitted, kept),
{
    let new = match action {
        BinaryAction::Append { .. } => true,
        _ => false,
    };
    !permitted && upload.companion.is_none() && said_text(&upload.description).is_none() && (new
        || !kept)
}

/// The receipt of an upload.
pub open spec fn binary_receipt_of(
    upload: BinaryUpload,
    action: BinaryAction,
    entry_id: u128,
    version: int,
    companion: MarkdownUpsertResult,
    generation: int,
) -> JsonV {
    object().with("entry_ref"@, JsonV::Text(entry_ref_text(entry_id))).with(
        "path"@,
        JsonV::Text(upload.path@),
    ).with("version"@, integer(version)).with(
        "content_hash"@,
        JsonV::Text(hash_text(bare_digest(upload.stored_hash@))),
    ).with("size_bytes"@, integer(upload.size_bytes as int)).with(
        "media_type"@,
        JsonV::Text(upload.media_type@),
    ).with(
        "companion"@,
        object().with("entry_ref"@, JsonV::Text(entry_ref_text(companion.entry_id))).with(
            "path"@,
            JsonV::Text(companion_path_of(upload)),
        ).with("version"@, integer(companion.version as int)),
    ).with("workspace_generation"@, integer(generation)).with(
        "description_status"@,
        JsonV::Text(description_status_of(upload)),
    ).with("metadata_only"@, JsonV::Bool(action is Annotate)).with(
        "no_op"@,
        JsonV::Bool(action is Keep && companion.no_op),
    )
}

/// The receipt of an upload, `entry_id` and `version` being those of the file.
pub fn binary_receipt(
    upload: &BinaryUpload,
    plan: &BinaryPlan,
    action: BinaryAction,
    entry_id: u128,
    version: i64,
    companion: &MarkdownUpsertResult,
    generation: i64,
) -> (r: Json)
    requires
        plan.is_of(*upload),
    ensures
        r@ == binary_receipt_of(
            *upload,
            action,
            entry_id,
            version as int,
            *companion,
            generation as int,
        ),
{
    let kept = match action {
        BinaryAction::Keep => true,
        _ => false,
    };
    let annotated = match action {
        BinaryAction::Annotate => true,
        _ => false,
    };
    Json::object().with("entry_ref", Json::Text(entry_ref(entry_id))).with(
        "path",
        Json::text(upload.path.as_str()),
    ).with("version", Json::integer(version)).with(
        "content_hash",
        Json::Text(cat("sha256:", plan.content_sha256.as_str())),
    ).with("size_bytes", Json::natural(upload.size_bytes)).with(
        "media_type",
        Json::text(upload.media_type.as_str()),
    ).with(
        "companion",
        Json::object().with("entry_ref", Json::Text(entry_ref(companion.entry_id))).with(
            "path",
            Json::text(plan.companion_path.as_str()),
        ).with("version", Json::integer(companion.version)),
    ).with("workspace_generation", Json::integer(generation)).with(
        "description_status",
        Json::text(plan.description_status.as_str()),
    ).with("metadata_only", Json::Bool(annotated)).with(
        "no_op",
        Json::Bool(kept && companion.no_op),
    )
}

// ---------------------------------------------------------------------------
// Reading a file
// ---------------------------------------------------------------------------

/// Accepts an entry that is a file.
pub fn check_is_binary(entry: &EntryRow) -> (r: Result<(), ApiError>)
    ensures
        refusal(r) == if entry.kind@ == "binary"@ {
            None
        } else {
            Some(ApiErrorV::Invalid("the requested entry is not binary"@))
        },
{
    if same(entry.kind.as_str(), "binary") {
        Ok(())
    } else {
        Err(ApiError::invalid("the requested entry is not binary"))
    }
}

/// Where the bytes of a file are.
pub fn binary_object_key(entry: &EntryRow) -> (r: Result<String, ApiError>)
    ensures
        match r {
            Ok(key) => entry.object_key is Some && key@ == entry.object_key->0@,
            Err(e) => entry.object_key is None && e@ == ApiErrorV::Internal(
                "binary entry has no object key"@,
            ),
        },
{
    match &entry.object_key {
        Some(key) => Ok(key.clone()),
        None => Err(ApiError::internal("binary entry has no object key")),
    }
}

/// Accepts the bytes of a file, by their number.
pub fn check_stored_size(entry: &EntryRow, content_length: Option<i64>) -> (r: Result<(), ApiError>)
    ensures
        refusal(r) == if content_length == Some(entry.size_bytes) {
            None
        } else {
            Some(
                ApiErrorV::Conflict(
                    "content_size_mismatch"@,
                    "stored binary size no longer matches its immutable metadata"@,
                    object().with("entry_ref"@, JsonV::Text(entry_ref_text(entry.id))),
                ),
            )
        },
{
    let matching = match content_length {
        Some(n) => n == entry.size_bytes,
        None => false,
    };
    if matching {
        return Ok(());
    }
    Err(
        ApiError::conflict(
            "content_size_mismatch",
            "stored binary size no longer matches its immutable metadata",
            Json::object().with("entry_ref", Json::Text(entry_ref(entry.id))),
        ),
    )
}

/// What is said of a file together with what its description says.
pub open spec fn described(binary: JsonV, companion: Option<JsonV>) -> JsonV {
    match companion {
        None => binary,
        Some(c) => put_if(
            binary,
            c.get("description_status"@) is Some,
            "description_status"@,
            c.get("description_status"@)->0,
        ).with("description"@, c),
    }
}

/// What is said of a file together with what its description says.
pub fn merge_binary_description_metadata(binary: Json, companion: Option<Json>) -> (r: Json)
    ensures
        r@ == described(
            binary@,
            match companion {
                Some(c) => Some(c@),
                None => None,
            },
        ),
{
    match companion {
        None => binary,
        Some(c) => {
            let status: Option<Json> = match c.get("description_status") {
                Some(status) => Some(status.copy()),
                None => None,
            };
            let known = match status {
                Some(status) => binary.with("description_status", status),
                None => binary,
            };
            known.with("description", c)
        },
    }
}

/// What is known of a file.
pub open spec fn binary_json(entry: EntryRow, metadata: JsonV) -> JsonV {
    object().with("entry_ref"@, JsonV::Text(entry_ref_text(entry.id))).with(
        "path"@,
        JsonV::Text(entry.path@),
    ).with("title"@, JsonV::Text(entry.title@)).with(
        "media_type"@,
        JsonV::Text(entry.media_type@),
    ).with("version"@, integer(entry.version as int)).with(
        "content_hash"@,
        JsonV::Text(hash_text(entry.content_sha256@)),
    ).with("size_bytes"@, integer(entry.size_bytes as int)).with("metadata"@, metadata).with(
        "updated_at"@,
        time_json(entry.updated_at),
    )
}

/// The reply to a question about a file.
pub fn binary_metadata_reply(entry: &EntryRow, metadata: Json) -> (r: Reply)
    ensures
        r@ == (ReplyV {
            session_id: None,
            corpus_revision: None,
            status: ResponseStatus::Complete,
            data: binary_json(*entry, metadata@),
            gaps: Seq::empty(),
        }),
{
    let gaps: Vec<Json> = Vec::new();
    assert(items_view(gaps@) =~= Seq::empty());
    Reply {
        session_id: None,
        corpus_revision: None,
        status: ResponseStatus::Complete,
        data: Json::object().with("entry_ref", Json::Text(entry_ref(entry.id))).with(
            "path",
            Json::text(entry.path.as_str()),
        ).with("title", Json::text(entry.title.as_str())).with(
            "media_type",
            Json::text(entry.media_type.as_str()),
        ).with("version", Json::integer(entry.version)).with(
            "content_hash",
            Json::Text(cat("sha256:", entry.content_sha256.as_str())),
        ).with("size_bytes", Json::integer(entry.size_bytes)).with("metadata", metadata).with(
            "updated_at",
            time_value(entry.updated_at),
        ),
        gaps,
    }
}

}
