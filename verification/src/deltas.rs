//! What changed since a checkpoint: texts side by side, differences line by line,
//! and where to look next.
use vstd::prelude::*;

use crate::candidate::has_text;
#[allow(unused_imports)]
use crate::candidate::option_view;
use crate::error::ApiError;
#[allow(unused_imports)]
use crate::error::{refusal, ApiErrorV};
use crate::json::Json;
#[allow(unused_imports)]
use crate::json::{integer, items_view, object, optional_integer, JsonV};
use crate::outside::{entry_ref, sha256_hex};
#[allow(unused_imports)]
use crate::outside::{entry_ref_text, text_digest};
use crate::paths::{is_managed, portable_path_key};
#[allow(unused_imports)]
use crate::paths::{managed, path_key};
#[allow(unused_imports)]
use crate::render::hash_text;
use crate::resume::{
    CheckpointSource, RESUME_DELTA_SOURCE_CHARS, RESUME_DELTA_TOTAL_CHARS,
    RESUME_DELTA_WHOLE_PAIR_CHARS,
};
#[allow(unused_imports)]
use crate::resume::{optional_view, pinned_view, source_values, PinnedV};
#[allow(unused_imports)]
use crate::seqs::lemma_texts_push;
use crate::text::{cat, decimal_of, decimal_of_natural, lines, same, truncate_chars};
#[allow(unused_imports)]
use crate::text::{decimal, text_lines, texts, truncated};

verus! {

// ---------------------------------------------------------------------------
// Differences line by line
// ---------------------------------------------------------------------------

/// How many lines around a difference are shown.
pub const CONTEXT_LINES: usize = 3;

/// Where two lists of lines first differ, from a line on.
pub open spec fn same_front(a: Seq<Seq<char>>, b: Seq<Seq<char>>, i: int) -> int
    decreases a.len() - i,
{
    if i < 0 || i >= a.len() || i >= b.len() || a[i] != b[i] {
        i
    } else {
        same_front(a, b, i + 1)
    }
}

/// How many lines two lists share at their ends, behind the first `p` lines and
/// beyond `k` that are known to be shared.
pub open spec fn same_back(a: Seq<Seq<char>>, b: Seq<Seq<char>>, p: int, k: int) -> int
    decreases a.len() - k,
{
    if p < 0 || k < 0 || p + k >= a.len() || p + k >= b.len() || a[a.len() - 1 - k] != b[b.len() - 1
        - k] {
        k
    } else {
        same_back(a, b, p, k + 1)
    }
}

/// Lines, each behind a mark.
pub open spec fn marked(mark: Seq<char>, lines: Seq<Seq<char>>) -> Seq<char>
    decreases lines.len(),
{
    if lines.len() == 0 {
        Seq::empty()
    } else {
        marked(mark, lines.drop_last()) + mark + lines.last() + "\n"@
    }
}

pub open spec fn context_start(prefix: int) -> int {
    if prefix < CONTEXT_LINES {
        0
    } else {
        prefix - CONTEXT_LINES
    }
}

pub open spec fn context_end(changed_end: int, len: int) -> int {
    if len - changed_end > CONTEXT_LINES {
        changed_end + CONTEXT_LINES
    } else {
        len
    }
}

/// The difference of two texts: what stands before and behind all that differs is
/// left out, but for a few lines.
pub open spec fn diff_text(path: Seq<char>, left: Seq<Seq<char>>, right: Seq<Seq<char>>) -> Seq<
    char,
> {
    let prefix = same_front(left, right, 0);
    let suffix = same_back(left, right, prefix, 0);
    let start = context_start(prefix);
    let left_changed = left.len() - suffix;
    let right_changed = right.len() - suffix;
    let left_end = context_end(left_changed, left.len() as int);
    let right_end = context_end(right_changed, right.len() as int);
    "--- a/"@ + path + "\n+++ b/"@ + path + "\n@@ -"@ + decimal(start + 1) + ","@ + decimal(
        left_end - start,
    ) + " +"@ + decimal(start + 1) + ","@ + decimal(right_end - start) + " @@\n"@ + marked(
        " "@,
        left.subrange(start, prefix),
    ) + marked("-"@, left.subrange(prefix, left_changed)) + marked(
        "+"@,
        right.subrange(prefix, right_changed),
    ) + marked(" "@, right.subrange(right_changed, right_end))
}

proof fn lemma_same_front(a: Seq<Seq<char>>, b: Seq<Seq<char>>, i: int)
    requires
        0 <= i <= a.len(),
        i <= b.len(),
    ensures
        i <= same_front(a, b, i) <= a.len(),
        same_front(a, b, i) <= b.len(),
        forall|k: int| i <= k < same_front(a, b, i) ==> #[trigger] a[k] == b[k],
    decreases a.len() - i,
{
    if i < a.len() && i < b.len() && a[i] == b[i] {
        lemma_same_front(a, b, i + 1);
    }
}

proof fn lemma_same_back(a: Seq<Seq<char>>, b: Seq<Seq<char>>, p: int, k: int)
    requires
        0 <= p,
        0 <= k,
        p + k <= a.len(),
        p + k <= b.len(),
    ensures
        k <= same_back(a, b, p, k),
        p + same_back(a, b, p, k) <= a.len(),
        p + same_back(a, b, p, k) <= b.len(),
        forall|j: int|
            #![trigger a[a.len() - 1 - j]]
            k <= j < same_back(a, b, p, k) ==> a[a.len() - 1 - j] == b[b.len() - 1 - j],
    decreases a.len() - k,
{
    if p + k < a.len() && p + k < b.len() && a[a.len() - 1 - k] == b[b.len() - 1 - k] {
        lemma_same_back(a, b, p, k + 1);
    }
}

/// What a difference leaves out is the same in both texts: the lines before the
/// first difference, and the lines behind the last one. Where the texts are the
/// same, no line is marked as removed or added.
pub proof fn lemma_diff_leaves_out_only_common_lines(left: Seq<Seq<char>>, right: Seq<Seq<char>>)
    ensures
        ({
            let prefix = same_front(left, right, 0);
            let suffix = same_back(left, right, prefix, 0);
            &&& 0 <= prefix && 0 <= suffix
            &&& prefix + suffix <= left.len()
            &&& prefix + suffix <= right.len()
            &&& left.take(prefix) == right.take(prefix)
            &&& left.skip(left.len() - suffix) == right.skip(right.len() - suffix)
            &&& left == right ==> prefix == left.len() && suffix == 0
        }),
{
    lemma_same_front(left, right, 0);
    let prefix = same_front(left, right, 0);
    lemma_same_back(left, right, prefix, 0);
    let suffix = same_back(left, right, prefix, 0);
    assert(left.take(prefix) =~= right.take(prefix));
    let a = left.skip(left.len() - suffix);
    let b = right.skip(right.len() - suffix);
    assert forall|i: int| 0 <= i < suffix implies a[i] == b[i] by {
        let j = suffix - 1 - i;
        assert(left[left.len() - 1 - j] == right[right.len() - 1 - j]);
        assert(a[i] == left[left.len() - suffix + i]);
        assert(b[i] == right[right.len() - suffix + i]);
    }
    assert(a =~= b);
    if left == right {
        lemma_same_all(left, 0);
    }
}

proof fn lemma_same_all(a: Seq<Seq<char>>, i: int)
    requires
        0 <= i <= a.len(),
    ensures
        same_front(a, a, i) == a.len(),
    decreases a.len() - i,
{
    if i < a.len() {
        lemma_same_all(a, i + 1);
    }
}

/// Adds lines, each behind a mark.
fn put_marked(out: &mut String, mark: &str, lines: &Vec<String>, from: usize, to: usize)
    requires
        from <= to <= lines@.len(),
    ensures
        final(out)@ == old(out)@ + marked(mark@, texts(lines@).subrange(from as int, to as int)),
{
    let ghost all = texts(lines@);
    let ghost start = out@;
    let mut i: usize = from;
    assert(all.subrange(from as int, from as int) =~= Seq::<Seq<char>>::empty());
    assert(out@ =~= start + marked(mark@, all.subrange(from as int, from as int)));
    while i < to
        invariant
            from <= i <= to <= lines@.len(),
            all == texts(lines@),
            out@ == start + marked(mark@, all.subrange(from as int, i as int)),
        decreases to - i,
    {
        let ghost held = out@;
        out.append(mark);
        out.append(lines[i].as_str());
        out.append("\n");
        proof {
            let more = all.subrange(from as int, i + 1);
            assert(more.drop_last() =~= all.subrange(from as int, i as int));
            assert(more.last() == lines@[i as int]@);
            assert(out@ =~= start + marked(mark@, more));
        }
        i = i + 1;
    }
}

/// The difference of two texts, line by line.
pub fn unified_line_diff(path: &str, before: &str, after: &str) -> (r: String)
    ensures
        r@ == diff_text(path@, text_lines(before@), text_lines(after@)),
{
    let left = lines(before);
    let right = lines(after);
    let ghost a = texts(left@);
    let ghost b = texts(right@);
    let mut prefix: usize = 0;
    while prefix < left.len() && prefix < right.len() && same(
        left[prefix].as_str(),
        right[prefix].as_str(),
    )
        invariant
            prefix <= left@.len(),
            prefix <= right@.len(),
            a == texts(left@),
            b == texts(right@),
            same_front(a, b, 0) == same_front(a, b, prefix as int),
        decreases left@.len() - prefix,
    {
        assert(a[prefix as int] == b[prefix as int]);
        prefix = prefix + 1;
    }
    proof {
        if prefix < left@.len() && prefix < right@.len() {
            assert(a[prefix as int] == left@[prefix as int]@);
            assert(b[prefix as int] == right@[prefix as int]@);
        }
        assert(same_front(a, b, 0) == prefix);
    }
    let mut suffix: usize = 0;
    while suffix < left.len() - prefix && suffix < right.len() - prefix && same(
        left[left.len() - 1 - suffix].as_str(),
        right[right.len() - 1 - suffix].as_str(),
    )
        invariant
            prefix + suffix <= left@.len(),
            prefix + suffix <= right@.len(),
            a == texts(left@),
            b == texts(right@),
            same_back(a, b, prefix as int, 0) == same_back(a, b, prefix as int, suffix as int),
        decreases left@.len() - suffix,
    {
        assert(a[left@.len() - 1 - suffix] == b[right@.len() - 1 - suffix]);
        suffix = suffix + 1;
    }
    proof {
        if suffix < left@.len() - prefix && suffix < right@.len() - prefix {
            assert(a[left@.len() - 1 - suffix] == left@[left@.len() - 1 - suffix]@);
            assert(b[right@.len() - 1 - suffix] == right@[right@.len() - 1 - suffix]@);
        }
        assert(same_back(a, b, prefix as int, 0) == suffix);
    }
    let start: usize = if prefix < CONTEXT_LINES {
        0
    } else {
        prefix - CONTEXT_LINES
    };
    let left_changed: usize = left.len() - suffix;
    let right_changed: usize = right.len() - suffix;
    let left_end: usize = if left.len() - left_changed > CONTEXT_LINES {
        left_changed + CONTEXT_LINES
    } else {
        left.len()
    };
    let right_end: usize = if right.len() - right_changed > CONTEXT_LINES {
        right_changed + CONTEXT_LINES
    } else {
        right.len()
    };
    let first = decimal_of_natural(start as u64 + 1);
    let mut out = "--- a/".to_owned();
    out.append(path);
    out.append("\n+++ b/");
    out.append(path);
    out.append("\n@@ -");
    out.append(first.as_str());
    out.append(",");
    out.append(decimal_of_natural((left_end - start) as u64).as_str());
    out.append(" +");
    out.append(first.as_str());
    out.append(",");
    out.append(decimal_of_natural((right_end - start) as u64).as_str());
    out.append(" @@\n");
    put_marked(&mut out, " ", &left, start, prefix);
    put_marked(&mut out, "-", &left, prefix, left_changed);
    put_marked(&mut out, "+", &right, prefix, right_changed);
    put_marked(&mut out, " ", &right, right_changed, right_end);
    out
}

// ---------------------------------------------------------------------------
// The versions of a source
// ---------------------------------------------------------------------------

/// What is found of a source: its entry, the version that the checkpoint is pinned
/// to, and the current one.
#[derive(Clone, Debug)]
pub struct PairRow {
    pub path: Option<String>,
    pub current_version: Option<i64>,
    pub pinned_sha256: Option<String>,
    pub before: Option<String>,
    pub current_sha256: Option<String>,
    pub after: Option<String>,
}

/// A source in both versions.
#[derive(Clone, Debug)]
pub struct ResumeVersionPair {
    pub source: CheckpointSource,
    pub current_version: i64,
    pub current_sha256: String,
    pub before: Option<String>,
    pub after: Option<String>,
}

#[verifier::ext_equal]
pub struct PairV {
    pub source: PinnedV,
    pub current_version: int,
    pub current_sha256: Seq<char>,
    pub before: Option<Seq<char>>,
    pub after: Option<Seq<char>>,
}

impl View for ResumeVersionPair {
    type V = PairV;

    open spec fn view(&self) -> PairV {
        PairV {
            source: self.source@,
            current_version: self.current_version as int,
            current_sha256: self.current_sha256@,
            before: option_view(self.before),
            after: option_view(self.after),
        }
    }
}

pub open spec fn pairs_view(pairs: Seq<ResumeVersionPair>) -> Seq<PairV> {
    Seq::new(pairs.len(), |i: int| pairs[i]@)
}

/// A source that is not what the checkpoint says it is.
pub open spec fn lineage_error(message: Seq<char>, details: JsonV) -> ApiErrorV {
    ApiErrorV::Conflict("checkpoint_lineage_error"@, message, details)
}

/// A source that is not what the checkpoint says it is.
pub fn resume_lineage_error(message: &str, details: Json) -> (r: ApiError)
    ensures
        r@ == lineage_error(message@, details@),
{
    ApiError::conflict("checkpoint_lineage_error", message, details)
}

/// Why the text of a version is not believed.
pub open spec fn hash_refusal(
    path: Seq<char>,
    version: int,
    expected: Seq<char>,
    content: Seq<char>,
) -> Option<ApiErrorV> {
    if text_digest(content) == expected {
        None
    } else {
        Some(
            lineage_error(
                "a checkpoint source version failed content-hash verification"@,
                object().with("path"@, JsonV::Text(path)).with("version"@, integer(version)).with(
                    "expected_hash"@,
                    JsonV::Text(hash_text(expected)),
                ).with("actual_hash"@, JsonV::Text(hash_text(text_digest(content)))),
            ),
        )
    }
}

/// Accepts the text of a version that has the digest it should have.
pub fn verify_resume_content_hash(
    source: &CheckpointSource,
    version: i64,
    expected: &str,
    content: &str,
) -> (r: Result<(), ApiError>)
    ensures
        refusal(r) == hash_refusal(source@.path, version as int, expected@, content@),
{
    let actual = sha256_hex(content);
    if same(actual.as_str(), expected) {
        return Ok(());
    }
    Err(
        resume_lineage_error(
            "a checkpoint source version failed content-hash verification",
            Json::object().with("path", Json::text(source.path.as_str())).with(
                "version",
                Json::integer(version),
            ).with("expected_hash", Json::Text(cat("sha256:", expected))).with(
                "actual_hash",
                Json::Text(cat("sha256:", actual.as_str())),
            ),
        ),
    )
}

/// Why a source is not compared: an entry or a version is missing, has another path
/// or another digest than the checkpoint says, or a text that is not its own.
pub open spec fn pair_refusal(source: PinnedV, row: PairRow) -> Option<ApiErrorV> {
    let path = JsonV::Text(source.path);
    if row.path is None {
        Some(
            lineage_error(
                "a checkpoint source entry is missing"@,
                object().with("path"@, path).with(
                    "entry_ref"@,
                    JsonV::Text(entry_ref_text(source.entry_id)),
                ),
            ),
        )
    } else if path_key(row.path->0@) != path_key(source.path) {
        Some(
            lineage_error(
                "a checkpoint source now resolves to a different path"@,
                object().with("pinned_path"@, path).with(
                    "current_path"@,
                    JsonV::Text(row.path->0@),
                ),
            ),
        )
    } else if row.pinned_sha256 is None {
        Some(
            lineage_error(
                "a checkpoint-pinned version is missing"@,
                object().with("path"@, path).with("version"@, integer(source.version)),
            ),
        )
    } else if row.pinned_sha256->0@ != source.sha256 {
        Some(
            lineage_error(
                "checkpoint metadata does not match the pinned version hash"@,
                object().with("path"@, path).with("version"@, integer(source.version)).with(
                    "checkpoint_hash"@,
                    JsonV::Text(hash_text(source.sha256)),
                ).with("stored_hash"@, JsonV::Text(hash_text(row.pinned_sha256->0@))),
            ),
        )
    } else if row.before is Some && hash_refusal(
        source.path,
        source.version,
        row.pinned_sha256->0@,
        row.before->0@,
    ) is Some {
        hash_refusal(source.path, source.version, row.pinned_sha256->0@, row.before->0@)
    } else if row.current_version is None {
        Some(
            lineage_error(
                "the current checkpoint source entry is missing"@,
                object().with("path"@, path),
            ),
        )
    } else if row.current_sha256 is None {
        Some(
            lineage_error(
                "the current checkpoint source version is missing"@,
                object().with("path"@, path).with(
                    "version"@,
                    integer(row.current_version->0 as int),
                ),
            ),
        )
    } else if row.after is Some {
        hash_refusal(
            source.path,
            row.current_version->0 as int,
            row.current_sha256->0@,
            row.after->0@,
        )
    } else {
        None
    }
}

/// A source in both versions, where both are what they should be.
pub fn resume_pair(source: &CheckpointSource, row: PairRow) -> (r: Result<
    ResumeVersionPair,
    ApiError,
>)
    ensures
        refusal(r) == pair_refusal(source@, row),
        r is Ok ==> r->Ok_0@ == (PairV {
            source: source@,
            current_version: row.current_version->0 as int,
            current_sha256: row.current_sha256->0@,
            before: option_view(row.before),
            after: option_view(row.after),
        }),
{
    let path = match &row.path {
        Some(path) => path,
        None => {
            return Err(
                resume_lineage_error(
                    "a checkpoint source entry is missing",
                    Json::object().with("path", Json::text(source.path.as_str())).with(
                        "entry_ref",
                        Json::Text(entry_ref(source.entry_id)),
                    ),
                ),
            );
        },
    };
    if !same(
        portable_path_key(path.as_str()).as_str(),
        portable_path_key(source.path.as_str()).as_str(),
    ) {
        return Err(
            resume_lineage_error(
                "a checkpoint source now resolves to a different path",
                Json::object().with("pinned_path", Json::text(source.path.as_str())).with(
                    "current_path",
                    Json::text(path.as_str()),
                ),
            ),
        );
    }
    let pinned = match &row.pinned_sha256 {
        Some(pinned) => pinned,
        None => {
            return Err(
                resume_lineage_error(
                    "a checkpoint-pinned version is missing",
                    Json::object().with("path", Json::text(source.path.as_str())).with(
                        "version",
                        Json::integer(source.pinned_version),
                    ),
                ),
            );
        },
    };
    if !same(pinned.as_str(), source.pinned_sha256.as_str()) {
        return Err(
            resume_lineage_error(
                "checkpoint metadata does not match the pinned version hash",
                Json::object().with("path", Json::text(source.path.as_str())).with(
                    "version",
                    Json::integer(source.pinned_version),
                ).with(
                    "checkpoint_hash",
                    Json::Text(cat("sha256:", source.pinned_sha256.as_str())),
                ).with("stored_hash", Json::Text(cat("sha256:", pinned.as_str()))),
            ),
        );
    }
    match &row.before {
        Some(content) => match verify_resume_content_hash(
            source,
            source.pinned_version,
            pinned.as_str(),
            content.as_str(),
        ) {
            Ok(_) => {},
            Err(e) => {
                return Err(e);
            },
        },
        None => {},
    }
    let current_version: i64 = match row.current_version {
        Some(version) => version,
        None => {
            return Err(
                resume_lineage_error(
                    "the current checkpoint source entry is missing",
                    Json::object().with("path", Json::text(source.path.as_str())),
                ),
            );
        },
    };
    let current_sha256 = match &row.current_sha256 {
        Some(hash) => hash.clone(),
        None => {
            return Err(
                resume_lineage_error(
                    "the current checkpoint source version is missing",
                    Json::object().with("path", Json::text(source.path.as_str())).with(
                        "version",
                        Json::integer(current_version),
                    ),
                ),
            );
        },
    };
    match &row.after {
        Some(content) => match verify_resume_content_hash(
            source,
            current_version,
            current_sha256.as_str(),
            content.as_str(),
        ) {
            Ok(_) => {},
            Err(e) => {
                return Err(e);
            },
        },
        None => {},
    }
    Ok(
        ResumeVersionPair {
            source: CheckpointSource {
                entry_id: source.entry_id,
                path: source.path.clone(),
                pinned_version: source.pinned_version,
                pinned_sha256: source.pinned_sha256.clone(),
            },
            current_version,
            current_sha256,
            before: row.before,
            after: row.after,
        },
    )
}

/// Accepts what was found of the sources, by how much it is.
pub fn check_pair_count(expected: usize, actual: usize) -> (r: Result<(), ApiError>)
    ensures
        refusal(r) == if expected == actual {
            None
        } else {
            Some(
                lineage_error(
                    "the checkpoint source batch did not return every pinned source"@,
                    object().with("expected"@, integer(expected as int)).with(
                        "actual"@,
                        integer(actual as int),
                    ),
                ),
            )
        },
{
    if expected == actual {
        return Ok(());
    }
    Err(
        resume_lineage_error(
            "the checkpoint source batch did not return every pinned source",
            Json::object().with("expected", Json::count(expected)).with(
                "actual",
                Json::count(actual),
            ),
        ),
    )
}

// ---------------------------------------------------------------------------
// Deltas
// ---------------------------------------------------------------------------

pub open spec fn with_text(j: JsonV, key: Seq<char>, text: Option<Seq<char>>) -> JsonV {
    match text {
        Some(t) => j.with(key, JsonV::Text(t)),
        None => j,
    }
}

/// What changed in a source.
pub open spec fn delta_json(
    pair: PairV,
    mode: Seq<char>,
    before: Option<Seq<char>>,
    after: Option<Seq<char>>,
    diff: Option<Seq<char>>,
    truncated: bool,
) -> JsonV {
    let head = object().with("path"@, JsonV::Text(pair.source.path)).with(
        "pinned_version"@,
        integer(pair.source.version),
    ).with("pinned_sha256"@, JsonV::Text(hash_text(pair.source.sha256))).with(
        "current_version"@,
        integer(pair.current_version),
    ).with("current_sha256"@, JsonV::Text(hash_text(pair.current_sha256))).with(
        "mode"@,
        JsonV::Text(mode),
    );
    let told = with_text(
        with_text(with_text(head, "before"@, before), "after"@, after),
        "diff"@,
        diff,
    );
    if truncated {
        told.with("truncated"@, JsonV::Bool(true))
    } else {
        told
    }
}

fn put_text(j: Json, key: &str, text: Option<String>) -> (r: Json)
    ensures
        r@ == with_text(j@, key@, option_view(text)),
{
    match text {
        Some(t) => j.with(key, Json::Text(t)),
        None => j,
    }
}

/// What changed in a source.
pub fn render_resume_delta(
    pair: &ResumeVersionPair,
    mode: &str,
    before: Option<String>,
    after: Option<String>,
    diff: Option<String>,
    truncated: bool,
) -> (r: Json)
    ensures
        r@ == delta_json(
            pair@,
            mode@,
            option_view(before),
            option_view(after),
            option_view(diff),
            truncated,
        ),
{
    let head = Json::object().with("path", Json::text(pair.source.path.as_str())).with(
        "pinned_version",
        Json::integer(pair.source.pinned_version),
    ).with(
        "pinned_sha256",
        Json::Text(cat("sha256:", pair.source.pinned_sha256.as_str())),
    ).with("current_version", Json::integer(pair.current_version)).with(
        "current_sha256",
        Json::Text(cat("sha256:", pair.current_sha256.as_str())),
    ).with("mode", Json::text(mode));
    let told = put_text(put_text(put_text(head, "before", before), "after", after), "diff", diff);
    if truncated {
        told.with("truncated", Json::Bool(true))
    } else {
        told
    }
}

/// A source that changed and is not compared.
pub open spec fn pointer_json(source: PinnedV, current: Option<i64>, reason: Seq<char>) -> JsonV {
    object().with("reference"@, JsonV::Text(entry_ref_text(source.entry_id))).with(
        "path"@,
        JsonV::Text(source.path),
    ).with("version"@, optional_integer(current)).with(
        "annotation"@,
        JsonV::Text(
            "changed since checkpoint: version "@ + decimal(source.version) + " \u{2192} "@
                + match current {
                Some(version) => decimal(version as int),
                None => "current"@,
            },
        ),
    ).with("delta_omitted_reason"@, JsonV::Text(reason))
}

/// A source that changed and is not compared, with the reason.
pub fn resume_delta_pointer(
    source: &CheckpointSource,
    current_version: Option<i64>,
    reason: &str,
) -> (r: Json)
    ensures
        r@ == pointer_json(source@, current_version, reason@),
{
    let mut annotation = "changed since checkpoint: version ".to_owned();
    annotation.append(decimal_of(source.pinned_version).as_str());
    annotation.append(" \u{2192} ");
    match current_version {
        Some(version) => annotation.append(decimal_of(version).as_str()),
        None => annotation.append("current"),
    }
    Json::object().with("reference", Json::Text(entry_ref(source.entry_id))).with(
        "path",
        Json::text(source.path.as_str()),
    ).with("version", Json::optional_integer(current_version)).with(
        "annotation",
        Json::Text(annotation),
    ).with("delta_omitted_reason", Json::text(reason))
}

/// What changed since a checkpoint: compared as far as there is room, pointed to
/// beyond that.
#[derive(Debug)]
pub struct ResumeDeltaBatch {
    pub deltas: Vec<Json>,
    pub leads: Vec<Json>,
    pub charged_chars: usize,
}

#[verifier::ext_equal]
pub struct BatchV {
    pub deltas: Seq<JsonV>,
    pub leads: Seq<JsonV>,
    pub charged: int,
    pub remaining: int,
}

pub open spec fn pointed_to(b: BatchV, pair: PairV, reason: Seq<char>) -> BatchV {
    BatchV {
        leads: b.leads.push(pointer_json(pair.source, Some(pair.current_version as i64), reason)),
        ..b
    }
}

pub open spec fn told(b: BatchV, delta: JsonV, chars: int) -> BatchV {
    BatchV {
        deltas: b.deltas.push(delta),
        leads: b.leads,
        charged: b.charged + chars,
        remaining: b.remaining - chars,
    }
}

/// What one source adds: both texts where they are short and there is room, else
/// their difference as far as there is room, else a pointer.
pub open spec fn with_pair(b: BatchV, pair: PairV) -> BatchV {
    match pair.before {
        None => pointed_to(b, pair, "non-text pinned source"@),
        Some(before) => match pair.after {
            None => pointed_to(b, pair, "non-text current source"@),
            Some(after) => if before.len() <= RESUME_DELTA_WHOLE_PAIR_CHARS && after.len()
                <= RESUME_DELTA_WHOLE_PAIR_CHARS {
                if before.len() + after.len() > b.remaining {
                    pointed_to(b, pair, "delta character budget"@)
                } else {
                    told(
                        b,
                        delta_json(pair, "whole_pair"@, Some(before), Some(after), None, false),
                        before.len() + after.len() as int,
                    )
                }
            } else if b.remaining == 0 {
                pointed_to(b, pair, "delta character budget"@)
            } else {
                let diff = diff_text(pair.source.path, text_lines(before), text_lines(after));
                let cap = if RESUME_DELTA_SOURCE_CHARS < b.remaining {
                    RESUME_DELTA_SOURCE_CHARS as int
                } else {
                    b.remaining
                };
                let shown = truncated(diff, cap);
                told(
                    b,
                    delta_json(
                        pair,
                        "unified_diff"@,
                        None,
                        None,
                        Some(shown),
                        diff.len() > cap,
                    ),
                    shown.len() as int,
                )
            },
        },
    }
}

pub open spec fn delta_room(evidence_chars: int) -> int {
    if evidence_chars < RESUME_DELTA_TOTAL_CHARS {
        evidence_chars
    } else {
        RESUME_DELTA_TOTAL_CHARS as int
    }
}

pub open spec fn with_pairs(pairs: Seq<PairV>, evidence_chars: int) -> BatchV
    decreases pairs.len(),
{
    if pairs.len() == 0 {
        BatchV {
            deltas: Seq::empty(),
            leads: Seq::empty(),
            charged: 0,
            remaining: delta_room(evidence_chars),
        }
    } else {
        with_pair(with_pairs(pairs.drop_last(), evidence_chars), pairs.last())
    }
}

pub open spec fn overflow_leads(sources: Seq<PinnedV>) -> Seq<JsonV> {
    Seq::new(sources.len(), |i: int| pointer_json(sources[i], None, "source limit"@))
}

/// What changed since a checkpoint, `overflow` being the sources that are not
/// compared for their number.
pub fn materialize_resume_deltas(
    pairs: &Vec<ResumeVersionPair>,
    overflow: &Vec<CheckpointSource>,
    evidence_chars: usize,
) -> (r: ResumeDeltaBatch)
    ensures
        items_view(r.deltas@) == with_pairs(pairs_view(pairs@), evidence_chars as int).deltas,
        items_view(r.leads@) == with_pairs(pairs_view(pairs@), evidence_chars as int).leads
            + overflow_leads(pinned_view(overflow@)),
        r.charged_chars == with_pairs(pairs_view(pairs@), evidence_chars as int).charged,
{
    let ghost all = pairs_view(pairs@);
    let mut remaining: usize = if evidence_chars < RESUME_DELTA_TOTAL_CHARS {
        evidence_chars
    } else {
        RESUME_DELTA_TOTAL_CHARS
    };
    let mut charged: usize = 0;
    let mut deltas: Vec<Json> = Vec::new();
    let mut leads: Vec<Json> = Vec::new();
    let mut i: usize = 0;
    assert(all.take(0) =~= Seq::<PairV>::empty());
    assert(items_view(deltas@) =~= Seq::<JsonV>::empty());
    assert(items_view(leads@) =~= Seq::<JsonV>::empty());
    while i < pairs.len()
        invariant
            i <= pairs@.len(),
            all == pairs_view(pairs@),
            charged + remaining <= RESUME_DELTA_TOTAL_CHARS,
            with_pairs(all.take(i as int), evidence_chars as int) == (BatchV {
                deltas: items_view(deltas@),
                leads: items_view(leads@),
                charged: charged as int,
                remaining: remaining as int,
            }),
        decreases pairs@.len() - i,
    {
        let pair = &pairs[i];
        let ghost so_far = with_pairs(all.take(i as int), evidence_chars as int);
        proof {
            assert(all.take(i + 1).drop_last() =~= all.take(i as int));
            assert(all.take(i + 1).last() == pair@);
        }
        let ghost held = items_view(leads@);
        let ghost kept = items_view(deltas@);
        let ghost goal = with_pair(so_far, pair@);
        match (&pair.before, &pair.after) {
            (None, _) => {
                let lead = resume_delta_pointer(
                    &pair.source,
                    Some(pair.current_version),
                    "non-text pinned source",
                );
                leads.push(lead);
                assert(items_view(leads@) =~= held.push(lead@));
            },
            (Some(_), None) => {
                let lead = resume_delta_pointer(
                    &pair.source,
                    Some(pair.current_version),
                    "non-text current source",
                );
                leads.push(lead);
                assert(items_view(leads@) =~= held.push(lead@));
            },
            (Some(before), Some(after)) => {
                let before_chars: usize = before.as_str().unicode_len();
                let after_chars: usize = after.as_str().unicode_len();
                if before_chars <= RESUME_DELTA_WHOLE_PAIR_CHARS && after_chars
                    <= RESUME_DELTA_WHOLE_PAIR_CHARS {
                    let chars: usize = before_chars + after_chars;
                    if chars > remaining {
                        let lead = resume_delta_pointer(
                            &pair.source,
                            Some(pair.current_version),
                            "delta character budget",
                        );
                        leads.push(lead);
                        assert(items_view(leads@) =~= held.push(lead@));
                    } else {
                        let delta = render_resume_delta(
                            pair,
                            "whole_pair",
                            Some(before.clone()),
                            Some(after.clone()),
                            None,
                            false,
                        );
                        deltas.push(delta);
                        assert(items_view(deltas@) =~= kept.push(delta@));
                        remaining = remaining - chars;
                        charged = charged + chars;
                    }
                } else if remaining == 0 {
                    let lead = resume_delta_pointer(
                        &pair.source,
                        Some(pair.current_version),
                        "delta character budget",
                    );
                    leads.push(lead);
                    assert(items_view(leads@) =~= held.push(lead@));
                } else {
                    let diff = unified_line_diff(
                        pair.source.path.as_str(),
                        before.as_str(),
                        after.as_str(),
                    );
                    let cap: usize = if RESUME_DELTA_SOURCE_CHARS < remaining {
                        RESUME_DELTA_SOURCE_CHARS
                    } else {
                        remaining
                    };
                    let cut = diff.as_str().unicode_len() > cap;
                    let shown = truncate_chars(diff.as_str(), cap);
                    let chars: usize = shown.as_str().unicode_len();
                    let delta = render_resume_delta(
                        pair,
                        "unified_diff",
                        None,
                        None,
                        Some(shown),
                        cut,
                    );
                    deltas.push(delta);
                    assert(items_view(deltas@) =~= kept.push(delta@));
                    remaining = remaining - chars;
                    charged = charged + chars;
                }
            },
        }
        assert(goal =~= (BatchV {
            deltas: items_view(deltas@),
            leads: items_view(leads@),
            charged: charged as int,
            remaining: remaining as int,
        }));
        i = i + 1;
    }
    assert(all.take(i as int) =~= all);
    let ghost first = items_view(leads@);
    let ghost behind = overflow_leads(pinned_view(overflow@));
    let mut k: usize = 0;
    assert(items_view(leads@) =~= first + behind.take(0));
    while k < overflow.len()
        invariant
            k <= overflow@.len(),
            behind == overflow_leads(pinned_view(overflow@)),
            items_view(leads@) == first + behind.take(k as int),
        decreases overflow@.len() - k,
    {
        let ghost held = items_view(leads@);
        let lead = resume_delta_pointer(&overflow[k], None, "source limit");
        leads.push(lead);
        proof {
            assert(pinned_view(overflow@)[k as int] == overflow@[k as int]@);
            assert(items_view(leads@) =~= held.push(lead@));
            assert(first + behind.take(k + 1) =~= (first + behind.take(k as int)).push(
                behind[k as int],
            ));
        }
        k = k + 1;
    }
    assert(behind.take(k as int) =~= behind);
    ResumeDeltaBatch { deltas, leads, charged_chars: charged }
}

pub open spec fn text_len(j: JsonV, key: Seq<char>) -> int {
    match j.get_text(key) {
        Some(t) => t.len() as int,
        None => 0,
    }
}

/// The characters of the sources that comparisons hold.
pub open spec fn shown_chars(deltas: Seq<JsonV>) -> int
    decreases deltas.len(),
{
    if deltas.len() == 0 {
        0
    } else {
        shown_chars(deltas.drop_last()) + text_len(deltas.last(), "before"@) + text_len(
            deltas.last(),
            "after"@,
        ) + text_len(deltas.last(), "diff"@)
    }
}

proof fn lemma_delta_chars(
    pair: PairV,
    mode: Seq<char>,
    before: Option<Seq<char>>,
    after: Option<Seq<char>>,
    diff: Option<Seq<char>>,
    truncated: bool,
)
    ensures
        ({
            let j = delta_json(pair, mode, before, after, diff, truncated);
            &&& j.get_text("before"@) == before
            &&& j.get_text("after"@) == after
            &&& j.get_text("diff"@) == diff
        }),
{
    reveal_strlit("path");
    reveal_strlit("pinned_version");
    reveal_strlit("pinned_sha256");
    reveal_strlit("current_version");
    reveal_strlit("current_sha256");
    reveal_strlit("mode");
    reveal_strlit("before");
    reveal_strlit("after");
    reveal_strlit("diff");
    reveal_strlit("truncated");
    assert("before"@.len() == 6);
    assert("after"@.len() == 5);
    assert("diff"@.len() == 4);
    assert("diff"@[0] == 'd');
    assert("path"@[0] == 'p');
    assert("mode"@[0] == 'm');
    assert("pinned_version"@.len() == 14);
    assert("pinned_sha256"@.len() == 13);
    assert("current_version"@.len() == 15);
    assert("current_sha256"@.len() == 14);
    assert("truncated"@.len() == 9);
    assert("path"@ != "diff"@);
    assert("mode"@ != "diff"@);
}

/// The comparisons hold exactly the characters that are charged for them, and never
/// more than there is room for.
pub proof fn lemma_deltas_within_budget(pairs: Seq<PairV>, evidence_chars: int)
    requires
        evidence_chars >= 0,
    ensures
        with_pairs(pairs, evidence_chars).charged == shown_chars(
            with_pairs(pairs, evidence_chars).deltas,
        ),
        with_pairs(pairs, evidence_chars).charged + with_pairs(pairs, evidence_chars).remaining
            == delta_room(evidence_chars),
        with_pairs(pairs, evidence_chars).remaining >= 0,
        with_pairs(pairs, evidence_chars).charged <= RESUME_DELTA_TOTAL_CHARS,
    decreases pairs.len(),
{
    if pairs.len() > 0 {
        lemma_deltas_within_budget(pairs.drop_last(), evidence_chars);
        let b = with_pairs(pairs.drop_last(), evidence_chars);
        let new = with_pairs(pairs, evidence_chars);
        let pair = pairs.last();
        if pair.before is Some && pair.after is Some {
            let before = pair.before->0;
            let after = pair.after->0;
            lemma_delta_chars(pair, "whole_pair"@, Some(before), Some(after), None, false);
            let diff = diff_text(pair.source.path, text_lines(before), text_lines(after));
            let cap = if RESUME_DELTA_SOURCE_CHARS < b.remaining {
                RESUME_DELTA_SOURCE_CHARS as int
            } else {
                b.remaining
            };
            lemma_delta_chars(
                pair,
                "unified_diff"@,
                None,
                None,
                Some(truncated(diff, cap)),
                diff.len() > cap,
            );
            if new.deltas.len() > b.deltas.len() {
                assert(new.deltas.drop_last() =~= b.deltas);
            }
        }
    }
}

// ---------------------------------------------------------------------------
// Where to look next
// ---------------------------------------------------------------------------

/// How many changed paths are followed.
pub const MAX_CHANGED_PATHS: usize = 16;

/// How many paths are followed at all.
pub const MAX_CONTINUATION_PATHS: usize = 32;

/// Whether a path with a key is in a list.
pub open spec fn has_key(paths: Seq<Seq<char>>, key: Seq<char>) -> bool {
    exists|i: int| 0 <= i < paths.len() && path_key(#[trigger] paths[i]) == key
}

/// The paths with those of `list` behind them, from one on, until there are `limit`:
/// none that is managed, and none whose key is there.
pub open spec fn gathered(
    list: Seq<Option<Seq<char>>>,
    i: int,
    paths: Seq<Seq<char>>,
    limit: int,
) -> Seq<Seq<char>>
    decreases list.len() - i,
{
    if i < 0 || i >= list.len() || paths.len() >= limit {
        paths
    } else {
        match list[i] {
            Some(path) => if managed(path) || has_key(paths, path_key(path)) {
                gathered(list, i + 1, paths, limit)
            } else {
                gathered(list, i + 1, paths.push(path), limit)
            },
            None => gathered(list, i + 1, paths, limit),
        }
    }
}

/// The paths of values, as far as they have one.
pub open spec fn paths_of(values: Seq<JsonV>) -> Seq<Option<Seq<char>>> {
    Seq::new(values.len(), |i: int| values[i].get_text("path"@))
}

/// The paths of the latest changes, the last change first.
pub open spec fn recent_paths(changes: Seq<JsonV>) -> Seq<Seq<char>> {
    gathered(paths_of(changes.reverse()), 0, Seq::empty(), MAX_CHANGED_PATHS as int)
}

/// Where work goes on: at the latest changes, then at the sources of the checkpoint.
pub open spec fn followed_paths(checkpoint: Option<JsonV>, changes: Seq<JsonV>) -> Seq<Seq<char>> {
    gathered(
        paths_of(source_values(checkpoint)),
        0,
        recent_paths(changes),
        MAX_CONTINUATION_PATHS as int,
    )
}

pub open spec fn keys_of(paths: Seq<Seq<char>>) -> Seq<Seq<char>> {
    Seq::new(paths.len(), |i: int| path_key(paths[i]))
}

/// Adds a path, unless it is managed or its key is there.
fn gather(paths: &mut Vec<String>, keys: &mut Vec<String>, path: &str)
    requires
        texts(old(keys)@) == keys_of(texts(old(paths)@)),
    ensures
        texts(final(keys)@) == keys_of(texts(final(paths)@)),
        texts(final(paths)@) == if managed(path@) || has_key(
            texts(old(paths)@),
            path_key(path@),
        ) {
            texts(old(paths)@)
        } else {
            texts(old(paths)@).push(path@)
        },
{
    let ghost all = texts(paths@);
    if is_managed(path) {
        return ;
    }
    let key = portable_path_key(path);
    let known = has_text(keys, key.as_str());
    proof {
        let ks = keys_of(all);
        if ks.contains(key@) {
            let i = choose|i: int| 0 <= i < ks.len() && ks[i] == key@;
            assert(path_key(all[i]) == key@);
        }
        if has_key(all, key@) {
            let i = choose|i: int| 0 <= i < all.len() && path_key(#[trigger] all[i]) == key@;
            assert(ks[i] == key@);
        }
    }
    if known {
        return ;
    }
    let ghost held = keys@;
    let ghost kept = paths@;
    keys.push(key);
    paths.push(path.to_owned());
    proof {
        lemma_texts_push(held, keys@[held.len() as int]);
        lemma_texts_push(kept, paths@[kept.len() as int]);
        assert(texts(keys@) =~= keys_of(texts(paths@)));
    }
}

/// Where work goes on, and the keys of the paths that changed.
pub fn continuation_paths(checkpoint: Option<&Json>, changes: &Vec<Json>) -> (r: (
    Vec<String>,
    Vec<String>,
))
    ensures
        texts(r.0@) == followed_paths(optional_view(checkpoint), items_view(changes@)),
        texts(r.1@) == keys_of(recent_paths(items_view(changes@))),
{
    let ghost values = items_view(changes@);
    let ghost list = paths_of(values.reverse());
    let mut paths: Vec<String> = Vec::new();
    let mut keys: Vec<String> = Vec::new();
    let mut left: usize = changes.len();
    let ghost goal = recent_paths(values);
    assert(texts(paths@) =~= Seq::<Seq<char>>::empty());
    assert(texts(keys@) =~= keys_of(texts(paths@)));
    while left > 0 && paths.len() < MAX_CHANGED_PATHS
        invariant
            left <= changes@.len(),
            values == items_view(changes@),
            list == paths_of(values.reverse()),
            goal == gathered(
                list,
                changes@.len() - left,
                texts(paths@),
                MAX_CHANGED_PATHS as int,
            ),
            texts(keys@) == keys_of(texts(paths@)),
        decreases left,
    {
        let ghost at = changes@.len() - left;
        proof {
            assert(values.reverse()[at] == values[left - 1]);
            assert(list[at] == changes@[left - 1]@.get_text("path"@));
            assert(texts(paths@).len() == paths@.len());
        }
        left = left - 1;
        match changes[left].get_text("path") {
            Some(path) => gather(&mut paths, &mut keys, path.as_str()),
            None => {},
        }
    }
    assert(texts(paths@).len() == paths@.len());
    assert(goal == texts(paths@));
    let mut changed: Vec<String> = Vec::new();
    let mut c: usize = 0;
    while c < keys.len()
        invariant
            c <= keys@.len(),
            texts(changed@) == texts(keys@).take(c as int),
        decreases keys@.len() - c,
    {
        let ghost held = changed@;
        changed.push(keys[c].clone());
        proof {
            lemma_texts_push(held, changed@[held.len() as int]);
            assert(texts(keys@).take(c + 1) =~= texts(keys@).take(c as int).push(
                texts(keys@)[c as int],
            ));
        }
        c = c + 1;
    }
    assert(texts(keys@).take(c as int) =~= texts(keys@));
    let entries: Option<&Vec<Json>> = match checkpoint {
        Some(value) => match value.get("source_entries") {
            Some(v) => v.as_array(),
            None => None,
        },
        None => None,
    };
    match entries {
        Some(entries) => {
            let ghost sources = source_values(optional_view(checkpoint));
            let ghost whole = followed_paths(optional_view(checkpoint), values);
            assert(sources =~= items_view(entries@));
            let mut i: usize = 0;
            while i < entries.len() && paths.len() < MAX_CONTINUATION_PATHS
                invariant
                    i <= entries@.len(),
                    sources == items_view(entries@),
                    whole == gathered(
                        paths_of(sources),
                        i as int,
                        texts(paths@),
                        MAX_CONTINUATION_PATHS as int,
                    ),
                    texts(keys@) == keys_of(texts(paths@)),
                decreases entries@.len() - i,
            {
                proof {
                    assert(paths_of(sources)[i as int] == entries@[i as int]@.get_text("path"@));
                    assert(texts(paths@).len() == paths@.len());
                }
                match entries[i].get_text("path") {
                    Some(path) => gather(&mut paths, &mut keys, path.as_str()),
                    None => {},
                }
                i = i + 1;
            }
            assert(texts(paths@).len() == paths@.len());
            assert(whole == texts(paths@));
        },
        None => {},
    }
    (paths, changed)
}

/// No path of a list is managed, and no two have the same key.
pub open spec fn well_gathered(paths: Seq<Seq<char>>) -> bool {
    &&& forall|i: int| 0 <= i < paths.len() ==> !managed(#[trigger] paths[i])
    &&& forall|i: int, j: int|
        0 <= i < j < paths.len() ==> path_key(#[trigger] paths[i]) != path_key(#[trigger] paths[j])
}

proof fn lemma_gathered(list: Seq<Option<Seq<char>>>, i: int, paths: Seq<Seq<char>>, limit: int)
    requires
        well_gathered(paths),
        paths.len() <= limit,
    ensures
        well_gathered(gathered(list, i, paths, limit)),
        paths.len() <= gathered(list, i, paths, limit).len() <= limit,
        gathered(list, i, paths, limit).take(paths.len() as int) == paths,
    decreases list.len() - i,
{
    assert(paths.take(paths.len() as int) =~= paths);
    if 0 <= i < list.len() && paths.len() < limit {
        match list[i] {
            Some(path) => if managed(path) || has_key(paths, path_key(path)) {
                lemma_gathered(list, i + 1, paths, limit);
            } else {
                let more = paths.push(path);
                assert forall|a: int, b: int| 0 <= a < b < more.len() implies path_key(
                    #[trigger] more[a],
                ) != path_key(#[trigger] more[b]) by {
                    assert(more[a] == paths[a]);
                }
                lemma_gathered(list, i + 1, more, limit);
                let all = gathered(list, i + 1, more, limit);
                assert(all.take(paths.len() as int) =~= all.take(more.len() as int).take(
                    paths.len() as int,
                ));
                assert(more.take(paths.len() as int) =~= paths);
            },
            None => {
                lemma_gathered(list, i + 1, paths, limit);
            },
        }
    }
}

/// Work goes on at no managed path, at no path twice, and at no more than so many;
/// the latest changes come first.
pub proof fn lemma_continuation(checkpoint: Option<JsonV>, changes: Seq<JsonV>)
    ensures
        well_gathered(followed_paths(checkpoint, changes)),
        followed_paths(checkpoint, changes).len() <= MAX_CONTINUATION_PATHS,
        recent_paths(changes).len() <= MAX_CHANGED_PATHS,
        recent_paths(changes).len() <= followed_paths(checkpoint, changes).len(),
        followed_paths(checkpoint, changes).take(recent_paths(changes).len() as int)
            == recent_paths(changes),
{
    lemma_gathered(
        paths_of(changes.reverse()),
        0,
        Seq::empty(),
        MAX_CHANGED_PATHS as int,
    );
    lemma_gathered(
        paths_of(source_values(checkpoint)),
        0,
        recent_paths(changes),
        MAX_CONTINUATION_PATHS as int,
    );
}

}
