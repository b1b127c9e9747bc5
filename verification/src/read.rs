//! Exact reads: how an entry is looked up, and how much of it is returned.
use vstd::prelude::*;

#[allow(unused_imports)]
use crate::candidate::option_view;
use crate::envelope::{revision, Reply, ResponseStatus};
#[allow(unused_imports)]
use crate::envelope::{revision_text, ReplyV};
use crate::error::ApiError;
#[allow(unused_imports)]
use crate::error::{refusal, ApiErrorV};
use crate::json::Json;
#[allow(unused_imports)]
use crate::json::{integer, items_view, object, optional_text, JsonV};
#[allow(unused_imports)]
use crate::lanes::later_generation;
use crate::lanes::latest_generation;
use crate::outside::entry_ref;
#[allow(unused_imports)]
use crate::outside::entry_ref_text;
use crate::paths::{
    checkpoint_id_of_ref, checkpoint_path, entry_id_of_ref, entry_link_lookup_keys, is_managed,
    portable_path_key,
};
#[allow(unused_imports)]
use crate::paths::{
    checkpoint_of_ref, checkpoint_path_text, checkpoint_ref_text, entry_of_ref, link_keys,
    link_refusal, managed, path_key,
};
use crate::render::time_value;
#[allow(unused_imports)]
use crate::render::{hash_text, time_json};
use crate::requests::ReadItem;
#[allow(unused_imports)]
use crate::seqs::{lemma_filter_empty, lemma_filter_take, lemma_texts_push};
use crate::text::{cat, chars_of, find_from, join, lines, same, truncate_chars, CharClass};
#[allow(unused_imports)]
use crate::text::{first_from, joined, text_lines, texts, truncated};

verus! {

/// The most characters a response to a read holds.
pub const MAX_READ_RESPONSE_CHARS: usize = 4_194_304;

/// The most characters of one entry that a read returns.
pub const MAX_EXACT_READ_CHARS: usize = 4_194_304;

/// The most bytes a conversation has, which is read as a whole.
pub const MAX_CONVERSATION_BYTES: usize = 12_582_912;

/// How many characters of an entry a read returns that does not say how many.
pub const DEFAULT_READ_CHARS: usize = 256_000;

/// How many entries one request reads.
pub const MAX_READ_REQUESTS: usize = 32;

/// How many lines a range has that does not say where it ends.
pub const DEFAULT_RANGE_LINES: usize = 200;

/// An entry of the workspace in one of its versions.
#[derive(Debug)]
pub struct EntryRow {
    pub id: u128,
    pub path: String,
    pub title: String,
    pub kind: String,
    pub media_type: String,
    pub version: i64,
    pub content_sha256: String,
    pub content: Option<String>,
    pub object_key: Option<String>,
    pub object_version_id: Option<String>,
    pub size_bytes: i64,
    pub metadata: Json,
    pub updated_at: i64,
    pub workspace_generation: Option<i64>,
}

impl EntryRow {
    /// The row under the version that was asked for, where one was.
    pub fn at_version(self, requested: Option<i64>) -> (r: EntryRow)
        ensures
            r == (EntryRow {
                version: match requested {
                    Some(v) => v,
                    None => self.version,
                },
                ..self
            }),
    {
        let version: i64 = match requested {
            Some(v) => v,
            None => self.version,
        };
        EntryRow { version, ..self }
    }
}

// ---------------------------------------------------------------------------
// Looking an entry up
// ---------------------------------------------------------------------------

/// One way to find an entry.
#[derive(Clone, Debug)]
pub enum LookupStep {
    /// By exactly this path.
    Path(String),
    /// By a path with this key.
    Key(String),
    /// By its identity.
    Id(u128),
}

pub enum StepV {
    Path(Seq<char>),
    Key(Seq<char>),
    Id(u128),
}

impl View for LookupStep {
    type V = StepV;

    open spec fn view(&self) -> StepV {
        match self {
            LookupStep::Path(p) => StepV::Path(p@),
            LookupStep::Key(k) => StepV::Key(k@),
            LookupStep::Id(id) => StepV::Id(*id),
        }
    }
}

pub open spec fn steps_view(steps: Seq<LookupStep>) -> Seq<StepV> {
    Seq::new(steps.len(), |i: int| steps[i]@)
}

/// The path by which a request finds its entry: the one it names, or that of the
/// checkpoint it names.
pub open spec fn effective_path(
    path: Option<Seq<char>>,
    reference: Option<Seq<char>>,
) -> Option<Seq<char>> {
    match path {
        Some(p) => Some(p),
        None => match reference {
            Some(r) => match checkpoint_of_ref(r) {
                Some(id) => Some(checkpoint_path_text(id)),
                None => None,
            },
            None => None,
        },
    }
}

/// The ways in which an entry is looked for, one after the other until one finds
/// it: by its path, then by the key of the path unless the path is managed; or by
/// its identity.
pub open spec fn lookup_steps(
    path: Option<Seq<char>>,
    reference: Option<Seq<char>>,
) -> Seq<StepV> {
    match effective_path(path, reference) {
        Some(p) => if managed(p) {
            seq![StepV::Path(p)]
        } else {
            seq![StepV::Path(p), StepV::Key(path_key(p))]
        },
        None => match reference {
            Some(r) => match entry_of_ref(r) {
                Some(id) => seq![StepV::Id(id)],
                None => Seq::empty(),
            },
            None => Seq::empty(),
        },
    }
}

/// The ways in which an entry is looked for; none where the request names no entry.
/// The reference of an entry leads to the entry, that of a checkpoint to its path.
pub fn lookup_plan(path: &Option<String>, reference: &Option<String>) -> (r: Vec<LookupStep>)
    ensures
        steps_view(r@) == lookup_steps(option_view(*path), option_view(*reference)),
        forall|id: u128|
            path is None && reference is Some && reference->0@ == #[trigger] checkpoint_ref_text(id)
                ==> steps_view(r@).len() > 0 && steps_view(r@)[0] == StepV::Path(
                checkpoint_path_text(id),
            ),
{
    let mut steps: Vec<LookupStep> = Vec::new();
    let by_path: Option<String> = match path {
        Some(p) => Some(p.clone()),
        None => match reference {
            Some(r) => match checkpoint_id_of_ref(r.as_str()) {
                Some(id) => Some(checkpoint_path(id)),
                None => None,
            },
            None => None,
        },
    };
    match by_path {
        Some(p) => {
            let key = portable_path_key(p.as_str());
            let exact_only = is_managed(p.as_str());
            steps.push(LookupStep::Path(p));
            if !exact_only {
                steps.push(LookupStep::Key(key));
            }
        },
        None => match reference {
            Some(r) => match entry_id_of_ref(r.as_str()) {
                Some(id) => {
                    steps.push(LookupStep::Id(id));
                },
                None => {},
            },
            None => {},
        },
    }
    assert(steps_view(steps@) =~= lookup_steps(option_view(*path), option_view(*reference)));
    steps
}

/// The ways in which the entry of an exact read is looked for.
pub fn entry_lookup(
    path: &Option<String>,
    reference: &Option<String>,
    requested_version: Option<i64>,
) -> (r: Result<Vec<LookupStep>, ApiError>)
    ensures
        refusal(r) == if requested_version is Some && requested_version->0 <= 0 {
            Some(ApiErrorV::Invalid("entry version must be positive"@))
        } else if lookup_steps(option_view(*path), option_view(*reference)).len() == 0 {
            Some(ApiErrorV::Invalid("read requires an exact path or entry ref"@))
        } else {
            None
        },
        r is Ok ==> steps_view(r->Ok_0@) == lookup_steps(
            option_view(*path),
            option_view(*reference),
        ),
{
    match requested_version {
        Some(v) => {
            if v <= 0 {
                return Err(ApiError::invalid("entry version must be positive"));
            }
        },
        None => {},
    }
    let steps = lookup_plan(path, reference);
    assert(steps_view(steps@).len() == steps@.len());
    if steps.len() == 0 {
        return Err(ApiError::invalid("read requires an exact path or entry ref"));
    }
    Ok(steps)
}

/// What is said where an exact read finds nothing.
pub fn entry_not_found(path: &Option<String>, reference: &Option<String>) -> (r: ApiError)
    ensures
        r@ == ApiErrorV::NotFound(
            "entry_not_found"@,
            match path {
                Some(p) => p@,
                None => match reference {
                    Some(q) => q@,
                    None => "entry"@,
                },
            },
        ),
{
    match path {
        Some(p) => ApiError::not_found("entry_not_found", p.as_str()),
        None => match reference {
            Some(q) => ApiError::not_found("entry_not_found", q.as_str()),
            None => ApiError::not_found("entry_not_found", "entry"),
        },
    }
}

/// The ways in which a source that is only referred to is looked for.
pub fn summary_lookup(path: &Option<String>, reference: &Option<String>) -> (r: Result<
    Vec<LookupStep>,
    ApiError,
>)
    ensures
        refusal(r) == if lookup_steps(option_view(*path), option_view(*reference)).len() == 0 {
            Some(
                ApiErrorV::Invalid("checkpoint sources require an exact path or entry ref"@),
            )
        } else {
            None
        },
        r is Ok ==> steps_view(r->Ok_0@) == lookup_steps(
            option_view(*path),
            option_view(*reference),
        ),
{
    let steps = lookup_plan(path, reference);
    assert(steps_view(steps@).len() == steps@.len());
    if steps.len() == 0 {
        return Err(ApiError::invalid("checkpoint sources require an exact path or entry ref"));
    }
    Ok(steps)
}

/// What is said where a source that is only referred to is not found.
pub fn summary_not_found(path: &Option<String>, reference: &Option<String>) -> (r: ApiError)
    ensures
        r@ == ApiErrorV::NotFound(
            "entry_not_found"@,
            match effective_path(option_view(*path), option_view(*reference)) {
                Some(p) => p,
                None => match reference {
                    Some(q) => q@,
                    None => "checkpoint source"@,
                },
            },
        ),
{
    match path {
        Some(p) => ApiError::not_found("entry_not_found", p.as_str()),
        None => match reference {
            Some(q) => match checkpoint_id_of_ref(q.as_str()) {
                Some(id) => ApiError::not_found("entry_not_found", checkpoint_path(id).as_str()),
                None => ApiError::not_found("entry_not_found", q.as_str()),
            },
            None => ApiError::not_found("entry_not_found", "checkpoint source"),
        },
    }
}

/// Whether the entries that match a link settle what it means.
pub fn link_choice(matches: usize, target: &str) -> (r: Result<(), ApiError>)
    ensures
        refusal(r) == if matches == 0 {
            Some(ApiErrorV::NotFound("entry_link_not_found"@, target@))
        } else if matches == 1 {
            None
        } else {
            Some(
                ApiErrorV::Public(
                    409,
                    "entry_link_ambiguous"@,
                    "More than one entry matches this link. Use its full path instead."@,
                ),
            )
        },
{
    if matches == 0 {
        Err(ApiError::not_found("entry_link_not_found", target))
    } else if matches == 1 {
        Ok(())
    } else {
        Err(
            ApiError::public(
                409,
                "entry_link_ambiguous",
                "More than one entry matches this link. Use its full path instead.",
            ),
        )
    }
}

/// Where the entry of a read is looked for.
#[derive(Debug)]
pub enum ReadSource {
    /// In these ways, one after the other.
    Entry(Vec<LookupStep>),
    /// Among the file names with these keys.
    Link(Vec<String>),
}

/// Why a read is not carried out.
pub open spec fn read_refusal(item: ReadItem) -> Option<ApiErrorV> {
    match item.link_target {
        Some(target) => if item.path is Some || item.reference is Some || item.version is Some {
            Some(
                ApiErrorV::Invalid(
                    "a link-target read cannot also specify a path, reference, or version"@,
                ),
            )
        } else {
            link_refusal(target@)
        },
        None => if item.version is Some && item.version->0 <= 0 {
            Some(ApiErrorV::Invalid("entry version must be positive"@))
        } else if lookup_steps(option_view(item.path), option_view(item.reference)).len() == 0 {
            Some(ApiErrorV::Invalid("read requires an exact path or entry ref"@))
        } else {
            None
        },
    }
}

/// Where the entry of a read is looked for.
pub fn read_source(item: &ReadItem) -> (r: Result<ReadSource, ApiError>)
    ensures
        refusal(r) == read_refusal(*item),
        match r {
            Ok(ReadSource::Link(keys)) => item.link_target is Some && texts(keys@) == link_keys(
                item.link_target->0@,
            ),
            Ok(ReadSource::Entry(steps)) => item.link_target is None && steps_view(steps@)
                == lookup_steps(option_view(item.path), option_view(item.reference)),
            Err(_) => true,
        },
{
    match &item.link_target {
        Some(target) => {
            if item.path.is_some() || item.reference.is_some() || item.version.is_some() {
                return Err(
                    ApiError::invalid(
                        "a link-target read cannot also specify a path, reference, or version",
                    ),
                );
            }
            match entry_link_lookup_keys(target.as_str()) {
                Ok(keys) => Ok(ReadSource::Link(keys)),
                Err(e) => Err(e),
            }
        },
        None => match entry_lookup(&item.path, &item.reference, item.version) {
            Ok(steps) => Ok(ReadSource::Entry(steps)),
            Err(e) => Err(e),
        },
    }
}

// ---------------------------------------------------------------------------
// What of an entry is read
// ---------------------------------------------------------------------------

/// The view that a read asks for.
pub open spec fn view_name(view: Option<String>) -> Seq<char> {
    match view {
        Some(v) => v@,
        None => "full"@,
    }
}

/// Whether a line is a heading.
pub open spec fn is_heading(line: Seq<char>) -> bool {
    let at = first_from(line, CharClass::NotWhitespace, 0);
    at < line.len() && line[at] == '#'
}

/// The first line of a range, counted from one.
pub open spec fn range_start(start: Option<usize>) -> int {
    match start {
        Some(n) => if n == 0 {
            1
        } else {
            n as int
        },
        None => 1,
    }
}

/// The last line of a range, counted from one.
pub open spec fn range_end(start: Option<usize>, end: Option<usize>) -> int {
    let first = range_start(start);
    match end {
        Some(n) => if n < first {
            first
        } else {
            n as int
        },
        None => first + DEFAULT_RANGE_LINES - 1,
    }
}

/// The lines from one to another, counted from one, as far as there are any.
pub open spec fn line_range(all: Seq<Seq<char>>, first: int, last: int) -> Seq<Seq<char>> {
    let end = if last < all.len() {
        last
    } else {
        all.len() as int
    };
    if first - 1 < end {
        all.subrange(first - 1, end)
    } else {
        Seq::empty()
    }
}

/// The text of an entry under a view; nothing where there is no such view.
pub open spec fn viewed(content: Seq<char>, item: ReadItem) -> Option<Seq<char>> {
    let view = view_name(item.view);
    if view == "full"@ || view == "current_state"@ || view == "current_truth"@ {
        Some(content)
    } else if view == "range"@ {
        Some(
            joined(
                line_range(
                    text_lines(content),
                    range_start(item.start),
                    range_end(item.start, item.end),
                ),
                "\n"@,
            ),
        )
    } else if view == "outline"@ {
        Some(joined(text_lines(content).filter(|l: Seq<char>| is_heading(l)), "\n"@))
    } else {
        None
    }
}

fn range_text(content: &str, start: Option<usize>, end: Option<usize>) -> (r: String)
    ensures
        r@ == joined(
            line_range(text_lines(content@), range_start(start), range_end(start, end)),
            "\n"@,
        ),
{
    let all = lines(content);
    let ghost goal = line_range(text_lines(content@), range_start(start), range_end(start, end));
    let first: usize = match start {
        Some(n) => if n == 0 {
            1
        } else {
            n
        },
        None => 1,
    };
    let last: usize = match end {
        Some(n) => if n < first {
            first
        } else {
            n
        },
        None => first.saturating_add(DEFAULT_RANGE_LINES - 1),
    };
    let stop: usize = if last < all.len() {
        last
    } else {
        all.len()
    };
    assert(texts(all@).len() == all@.len());
    let mut out: Vec<String> = Vec::new();
    let mut i: usize = first - 1;
    if i >= stop {
        assert(texts(out@) =~= goal);
        return join(&out, "\n");
    }
    assert(texts(out@) =~= text_lines(content@).subrange(first - 1, i as int));
    while i < stop
        invariant
            1 <= first,
            first - 1 <= i <= stop <= all@.len(),
            texts(all@) == text_lines(content@),
            texts(out@) == text_lines(content@).subrange(first - 1, i as int),
        decreases stop - i,
    {
        let ghost held = out@;
        out.push(all[i].clone());
        proof {
            lemma_texts_push(held, out@[held.len() as int]);
            assert(text_lines(content@)[i as int] == all@[i as int]@);
            assert(text_lines(content@).subrange(first - 1, i + 1) =~= text_lines(
                content@,
            ).subrange(first - 1, i as int).push(text_lines(content@)[i as int]));
        }
        i = i + 1;
    }
    join(&out, "\n")
}

fn heading(line: &str) -> (r: bool)
    ensures
        r == is_heading(line@),
{
    let chars = chars_of(line);
    let at = find_from(&chars, CharClass::NotWhitespace, 0);
    at < chars.len() && chars[at] == '#'
}

fn outline_text(content: &str) -> (r: String)
    ensures
        r@ == joined(text_lines(content@).filter(|l: Seq<char>| is_heading(l)), "\n"@),
{
    let all = lines(content);
    let ghost f = |l: Seq<char>| is_heading(l);
    let ghost every = text_lines(content@);
    let mut out: Vec<String> = Vec::new();
    let mut i: usize = 0;
    proof {
        lemma_filter_empty(every.take(0), f);
        assert(texts(out@) =~= every.take(0).filter(f));
    }
    while i < all.len()
        invariant
            i <= all@.len(),
            every == texts(all@),
            f == (|l: Seq<char>| is_heading(l)),
            texts(out@) == every.take(i as int).filter(f),
        decreases all@.len() - i,
    {
        let ghost held = out@;
        proof {
            lemma_filter_take(every, f, i as int);
            assert(every[i as int] == all@[i as int]@);
        }
        if heading(all[i].as_str()) {
            out.push(all[i].clone());
            proof {
                lemma_texts_push(held, out@[held.len() as int]);
            }
        }
        i = i + 1;
    }
    assert(every.take(i as int) =~= every);
    join(&out, "\n")
}

/// Whether the metadata of an entry says anything.
pub open spec fn says_something(metadata: JsonV) -> bool {
    metadata != object() && !(metadata is Null)
}

pub open spec fn content_of(entry: EntryRow) -> Seq<char> {
    match entry.content {
        Some(t) => t@,
        None => Seq::empty(),
    }
}

/// An entry as it is read: what identifies it, and at most `max_chars` characters
/// of its text under the view.
pub open spec fn read_json(entry: EntryRow, item: ReadItem, max_chars: int) -> Option<JsonV> {
    match viewed(content_of(entry), item) {
        Some(text) => {
            let base = object().with("reference"@, JsonV::Text(entry_ref_text(entry.id))).with(
                "path"@,
                JsonV::Text(entry.path@),
            ).with("title"@, JsonV::Text(entry.title@)).with(
                "version"@,
                integer(entry.version as int),
            ).with("content_hash"@, JsonV::Text(hash_text(entry.content_sha256@))).with(
                "media_type"@,
                JsonV::Text(entry.media_type@),
            ).with("view"@, JsonV::Text(view_name(item.view))).with(
                "text"@,
                JsonV::Text(truncated(text, max_chars)),
            ).with("updated_at"@, time_json(entry.updated_at));
            let cut = if text.len() > max_chars {
                base.with("truncated"@, JsonV::Bool(true))
            } else {
                base
            };
            Some(
                if says_something(entry.metadata@) {
                    cut.with("metadata"@, entry.metadata@)
                } else {
                    cut
                },
            )
        },
        None => None,
    }
}

/// An entry as it is read.
pub fn render_read(entry: &EntryRow, request: &ReadItem, max_chars: usize) -> (r: Result<
    Json,
    ApiError,
>)
    ensures
        match r {
            Ok(j) => read_json(*entry, *request, max_chars as int) == Some(j@),
            Err(e) => read_json(*entry, *request, max_chars as int) is None && e@
                == ApiErrorV::Invalid(
                "simple read does not support view "@ + view_name(request.view),
            ),
        },
{
    let content = match &entry.content {
        Some(t) => t.clone(),
        None => String::new(),
    };
    assert(content@ =~= content_of(*entry));
    let view = match &request.view {
        Some(v) => v.clone(),
        None => "full".to_owned(),
    };
    let selected = if same(view.as_str(), "full") || same(view.as_str(), "current_state") || same(
        view.as_str(),
        "current_truth",
    ) {
        content
    } else if same(view.as_str(), "range") {
        range_text(content.as_str(), request.start, request.end)
    } else if same(view.as_str(), "outline") {
        outline_text(content.as_str())
    } else {
        return Err(
            ApiError::invalid(cat("simple read does not support view ", view.as_str()).as_str()),
        );
    };
    let mut rendered = Json::object().with("reference", Json::Text(entry_ref(entry.id))).with(
        "path",
        Json::text(entry.path.as_str()),
    ).with("title", Json::text(entry.title.as_str())).with(
        "version",
        Json::integer(entry.version),
    ).with("content_hash", Json::Text(cat("sha256:", entry.content_sha256.as_str()))).with(
        "media_type",
        Json::text(entry.media_type.as_str()),
    ).with("view", Json::Text(view)).with(
        "text",
        Json::Text(truncate_chars(selected.as_str(), max_chars)),
    ).with("updated_at", time_value(entry.updated_at));
    if selected.as_str().unicode_len() > max_chars {
        rendered = rendered.with("truncated", Json::Bool(true));
    }
    if !entry.metadata.is_empty_object() && !entry.metadata.is_null() {
        rendered = rendered.with("metadata", entry.metadata.copy());
    }
    Ok(rendered)
}

/// How many characters of an entry a read may return: a conversation is read as a
/// whole where it is the only entry read.
pub open spec fn read_limit(count: int, item: ReadItem, entry: EntryRow, conversation: bool) -> int {
    if count == 1 && view_name(item.view) == "full"@ && entry.kind@ == "markdown"@
        && entry.media_type@ == "text/markdown"@ && 0 <= entry.size_bytes
        <= MAX_CONVERSATION_BYTES && entry.content is Some && conversation {
        MAX_CONVERSATION_BYTES as int
    } else {
        MAX_EXACT_READ_CHARS as int
    }
}

/// How many characters of an entry a read may return. `conversation` says whether
/// the entry is a valid conversation.
pub fn exact_read_char_limit(
    requested_count: usize,
    request: &ReadItem,
    entry: &EntryRow,
    conversation: bool,
) -> (r: usize)
    ensures
        r == read_limit(requested_count as int, *request, *entry, conversation),
{
    let full = match &request.view {
        Some(v) => same(v.as_str(), "full"),
        None => true,
    };
    if requested_count == 1 && full && same(entry.kind.as_str(), "markdown") && same(
        entry.media_type.as_str(),
        "text/markdown",
    ) && entry.size_bytes >= 0 && entry.size_bytes <= 12_582_912 && entry.content.is_some()
        && conversation {
        MAX_CONVERSATION_BYTES
    } else {
        MAX_EXACT_READ_CHARS
    }
}

// ---------------------------------------------------------------------------
// The current truth
// ---------------------------------------------------------------------------

/// What is done about the current truth that a read asks for.
#[derive(Clone, Copy, Debug, PartialEq, Eq, Structural)]
pub enum TruthStep {
    /// Nothing.
    Leave,
    /// The document is returned with a note that nothing was followed.
    Disabled,
    /// The chain of what supersedes the document is resolved.
    Resolve,
}

/// What is done about the current truth that a read asks for: `enabled` says
/// whether superseded documents are followed at all, `found` whether the document
/// was found, `known` whether the chains are known.
pub fn truth_step(view: &Option<String>, enabled: bool, found: bool, known: bool) -> (r: TruthStep)
    ensures
        r == if view_name(*view) != "current_truth"@ {
            TruthStep::Leave
        } else if !enabled {
            TruthStep::Disabled
        } else if found && known {
            TruthStep::Resolve
        } else {
            TruthStep::Leave
        },
{
    let asked = match view {
        Some(v) => same(v.as_str(), "current_truth"),
        None => false,
    };
    proof {
        reveal_strlit("full");
        reveal_strlit("current_truth");
        assert("full"@.len() != "current_truth"@.len());
    }
    if !asked {
        TruthStep::Leave
    } else if !enabled {
        TruthStep::Disabled
    } else if found && known {
        TruthStep::Resolve
    } else {
        TruthStep::Leave
    }
}

/// Whether the head of a chain is read in the place of the document: where the
/// chain is sound and leads elsewhere.
pub fn reads_head(head_path: &str, warned: bool, requested_path: &str) -> (r: bool)
    ensures
        r == (!warned && head_path@ != requested_path@),
{
    !warned && !same(head_path, requested_path)
}

/// What was found out about the current truth.
#[derive(Debug)]
pub enum CurrentTruth {
    NotAsked,
    Disabled,
    Resolved { chain: Json, warning: Option<Json> },
}

pub open spec fn with_truth(j: JsonV, truth: CurrentTruth) -> JsonV {
    match truth {
        CurrentTruth::NotAsked => j,
        CurrentTruth::Disabled => j.with(
            "current_truth_notice"@,
            JsonV::Text(
                "supersession_demotion is disabled; the requested document was returned unchanged"@,
            ),
        ),
        CurrentTruth::Resolved { chain, warning } => {
            let known = j.with("supersession_chain"@, chain@);
            match warning {
                Some(w) => known.with("supersession_warning"@, w@),
                None => known,
            }
        },
    }
}

fn put_truth(j: Json, truth: &CurrentTruth) -> (r: Json)
    ensures
        r@ == with_truth(j@, *truth),
{
    match truth {
        CurrentTruth::NotAsked => j,
        CurrentTruth::Disabled => j.with(
            "current_truth_notice",
            Json::text(
                "supersession_demotion is disabled; the requested document was returned unchanged",
            ),
        ),
        CurrentTruth::Resolved { chain, warning } => {
            let known = j.with("supersession_chain", chain.copy());
            match warning {
                Some(w) => known.with("supersession_warning", w.copy()),
                None => known,
            }
        },
    }
}


// ---------------------------------------------------------------------------
// All entries of a request
// ---------------------------------------------------------------------------

/// What became of one read.
#[derive(Debug)]
pub enum ResolvedRead {
    /// The entry, whether it is a valid conversation, and what was found out about
    /// the current truth.
    Found { entry: EntryRow, conversation: bool, truth: CurrentTruth },
    /// No such entry, with what is said about it.
    Missing { code: String, message: String, details: Json },
    /// The read cannot be carried out.
    Failed { error: ApiError },
}

/// What a request has returned so far.
#[derive(Debug)]
pub struct ReadTally {
    pub items: Vec<Json>,
    pub used: Vec<u128>,
    pub remaining_chars: usize,
    pub skipped: usize,
    pub missing: usize,
    pub generation: Option<i64>,
}

#[verifier::ext_equal]
pub struct TallyV {
    pub items: Seq<JsonV>,
    pub used: Seq<u128>,
    pub remaining: int,
    pub skipped: int,
    pub missing: int,
    pub generation: Option<i64>,
}

impl View for ReadTally {
    type V = TallyV;

    open spec fn view(&self) -> TallyV {
        TallyV {
            items: items_view(self.items@),
            used: self.used@,
            remaining: self.remaining_chars as int,
            skipped: self.skipped as int,
            missing: self.missing as int,
            generation: self.generation,
        }
    }
}

pub open spec fn no_reads() -> TallyV {
    TallyV {
        items: Seq::empty(),
        used: Seq::empty(),
        remaining: MAX_READ_RESPONSE_CHARS as int,
        skipped: 0,
        missing: 0,
        generation: None,
    }
}

/// What is returned in the place of an entry that does not exist.
pub open spec fn missing_json(
    item: ReadItem,
    code: Seq<char>,
    message: Seq<char>,
    details: JsonV,
) -> JsonV {
    object().with("status"@, JsonV::Text("not_found"@)).with(
        "path"@,
        optional_text(
            match item.path {
                Some(p) => Some(p@),
                None => option_view(item.link_target),
            },
        ),
    ).with("reference"@, optional_text(option_view(item.reference))).with(
        "link_target"@,
        optional_text(option_view(item.link_target)),
    ).with(
        "error"@,
        object().with("code"@, JsonV::Text(code)).with("message"@, JsonV::Text(message)).with(
            "details"@,
            details,
        ),
    )
}

fn write_missing(item: &ReadItem, code: &str, message: &str, details: &Json) -> (r: Json)
    ensures
        r@ == missing_json(*item, code@, message@, details@),
{
    let path = match &item.path {
        Some(p) => Json::text(p.as_str()),
        None => Json::optional_text(&item.link_target),
    };
    Json::object().with("status", Json::text("not_found")).with("path", path).with(
        "reference",
        Json::optional_text(&item.reference),
    ).with("link_target", Json::optional_text(&item.link_target)).with(
        "error",
        Json::object().with("code", Json::text(code)).with("message", Json::text(message)).with(
            "details",
            details.copy(),
        ),
    )
}

/// How many characters may be returned at all where this entry is read.
pub open spec fn room(count: int, limit: int, remaining: int) -> int {
    if count == 1 {
        limit
    } else {
        remaining
    }
}

/// How many characters of an entry a read returns.
pub open spec fn read_chars(item: ReadItem, limit: int, left: int) -> int {
    let wanted: int = match item.max_chars {
        Some(n) => if n < 1 {
            1
        } else if n > limit {
            limit
        } else {
            n as int
        },
        None => DEFAULT_READ_CHARS as int,
    };
    if wanted < left {
        wanted
    } else {
        left
    }
}

/// What one read adds to what a request has returned. Once the room is used up,
/// nothing more is read.
pub open spec fn read_one(
    count: int,
    item: ReadItem,
    resolved: ResolvedRead,
    t: TallyV,
) -> Result<TallyV, ApiErrorV> {
    if t.remaining == 0 {
        Ok(TallyV { skipped: t.skipped + 1, ..t })
    } else {
        match resolved {
            ResolvedRead::Failed { error } => Err(error@),
            ResolvedRead::Missing { code, message, details } => Ok(
                TallyV {
                    items: t.items.push(missing_json(item, code@, message@, details@)),
                    missing: t.missing + 1,
                    ..t
                },
            ),
            ResolvedRead::Found { entry, conversation, truth } => {
                let limit = read_limit(count, item, entry, conversation);
                let left = room(count, limit, t.remaining);
                let max_chars = read_chars(item, limit, left);
                match read_json(entry, item, max_chars) {
                    Some(j) => Ok(
                        TallyV {
                            items: t.items.push(with_truth(j, truth)),
                            used: t.used.push(entry.id),
                            remaining: left - truncated(
                                viewed(content_of(entry), item)->0,
                                max_chars,
                            ).len(),
                            generation: later_generation(t.generation, entry.workspace_generation),
                            ..t
                        },
                    ),
                    None => Err(
                        ApiErrorV::Invalid(
                            "simple read does not support view "@ + view_name(item.view),
                        ),
                    ),
                }
            },
        }
    }
}

/// What a request returns, its reads in their order.
pub open spec fn read_all(
    count: int,
    reads: Seq<(ReadItem, ResolvedRead)>,
) -> Result<TallyV, ApiErrorV>
    decreases reads.len(),
{
    if reads.len() == 0 {
        Ok(no_reads())
    } else {
        match read_all(count, reads.drop_last()) {
            Ok(t) => read_one(count, reads.last().0, reads.last().1, t),
            Err(e) => Err(e),
        }
    }
}

/// The text of an entry as it was read.
proof fn lemma_read_text(entry: EntryRow, item: ReadItem, max_chars: int, truth: CurrentTruth)
    requires
        read_json(entry, item, max_chars) is Some,
    ensures
        with_truth(read_json(entry, item, max_chars)->0, truth).get_text("text"@) == Some(
            truncated(viewed(content_of(entry), item)->0, max_chars),
        ),
{
    reveal_strlit("text");
    reveal_strlit("updated_at");
    reveal_strlit("truncated");
    reveal_strlit("metadata");
    reveal_strlit("current_truth_notice");
    reveal_strlit("supersession_chain");
    reveal_strlit("supersession_warning");
    assert("text"@.len() == 4);
    assert("updated_at"@.len() == 10);
    assert("truncated"@.len() == 9);
    assert("metadata"@.len() == 8);
    assert("current_truth_notice"@.len() == 20);
    assert("supersession_chain"@.len() == 18);
    assert("supersession_warning"@.len() == 20);
}

/// The characters of the texts that were read.
pub open spec fn text_chars(items: Seq<JsonV>) -> int
    decreases items.len(),
{
    if items.len() == 0 {
        0
    } else {
        text_chars(items.drop_last()) + match items.last().get_text("text"@) {
            Some(t) => t.len() as int,
            None => 0,
        }
    }
}

proof fn lemma_missing_has_no_text(
    item: ReadItem,
    code: Seq<char>,
    message: Seq<char>,
    details: JsonV,
)
    ensures
        missing_json(item, code, message, details).get_text("text"@) is None,
{
    reveal_strlit("text");
    reveal_strlit("status");
    reveal_strlit("path");
    reveal_strlit("reference");
    reveal_strlit("link_target");
    reveal_strlit("error");
    assert("text"@[0] != "path"@[0]);
    assert("text"@.len() == 4);
    assert("status"@.len() == 6);
    assert("reference"@.len() == 9);
    assert("link_target"@.len() == 11);
    assert("error"@.len() == 5);
}

/// A response to several reads never holds more characters of the entries than a
/// response may hold, and one to a single read never more than a conversation has.
pub proof fn lemma_reads_within_budget(count: int, reads: Seq<(ReadItem, ResolvedRead)>)
    requires
        count >= 1,
        reads.len() <= count,
        read_all(count, reads) is Ok,
    ensures
        count > 1 ==> text_chars(read_all(count, reads)->Ok_0.items)
            + read_all(count, reads)->Ok_0.remaining == MAX_READ_RESPONSE_CHARS,
        count == 1 ==> text_chars(read_all(count, reads)->Ok_0.items) <= MAX_CONVERSATION_BYTES,
        read_all(count, reads)->Ok_0.remaining >= 0,
    decreases reads.len(),
{
    if reads.len() > 0 {
        lemma_reads_within_budget(count, reads.drop_last());
        let t = read_all(count, reads.drop_last())->Ok_0;
        let new = read_all(count, reads)->Ok_0;
        if count == 1 {
            assert(reads.drop_last().len() == 0);
            assert(t.items.len() == 0);
            assert(text_chars(t.items) == 0);
        }
        let item = reads.last().0;
        if t.remaining != 0 {
            match reads.last().1 {
                ResolvedRead::Failed { error } => {},
                ResolvedRead::Missing { code, message, details } => {
                    lemma_missing_has_no_text(item, code@, message@, details@);
                    assert(new.items.drop_last() =~= t.items);
                },
                ResolvedRead::Found { entry, conversation, truth } => {
                    let limit = read_limit(count, item, entry, conversation);
                    let left = room(count, limit, t.remaining);
                    lemma_read_text(entry, item, read_chars(item, limit, left), truth);
                    assert(new.items.drop_last() =~= t.items);
                },
            }
        }
    }
}

/// What a request returns: every read by the room that is left. `reads` are the
/// reads of the request in their order, each with what became of it.
pub fn read_entries(reads: Vec<(ReadItem, ResolvedRead)>) -> (r: Result<ReadTally, ApiError>)
    ensures
        match r {
            Ok(t) => read_all(reads@.len() as int, reads@) == Ok::<TallyV, ApiErrorV>(t@),
            Err(e) => read_all(reads@.len() as int, reads@) == Err::<TallyV, ApiErrorV>(e@),
        },
{
    let count: usize = reads.len();
    let ghost all = reads@;
    let mut rest = reads;
    let mut t = ReadTally {
        items: Vec::new(),
        used: Vec::new(),
        remaining_chars: MAX_READ_RESPONSE_CHARS,
        skipped: 0,
        missing: 0,
        generation: None,
    };
    let mut i: usize = 0;
    assert(t@ =~= no_reads());
    assert(all.take(0) =~= Seq::<(ReadItem, ResolvedRead)>::empty());
    while rest.len() > 0
        invariant
            all == reads@,
            count == all.len(),
            i + rest@.len() == count,
            rest@ == all.skip(i as int),
            read_all(count as int, all.take(i as int)) == Ok::<TallyV, ApiErrorV>(t@),
            t.skipped <= i,
            t.missing <= i,
        decreases rest@.len(),
    {
        let ghost so_far = t@;
        let ghost before = rest@;
        let (item, resolved) = rest.remove(0);
        proof {
            assert(before[0] == all[i as int]);
            assert(rest@ =~= all.skip(i + 1));
            assert(all.take(i + 1).drop_last() =~= all.take(i as int));
            assert(all.take(i + 1).last() == all[i as int]);
            lemma_read_prefix(count as int, all, i + 1);
        }
        let ghost goal = read_one(count as int, item, resolved, so_far);
        assert(read_all(count as int, all.take(i + 1)) == goal);
        if t.remaining_chars == 0 {
            t.skipped = t.skipped + 1;
            assert(t@ =~= goal->Ok_0);
        } else {
            match resolved {
                ResolvedRead::Failed { error } => {
                    return Err(error);
                },
                ResolvedRead::Missing { code, message, details } => {
                    let j = write_missing(&item, code.as_str(), message.as_str(), &details);
                    let ghost held = t.items@;
                    t.items.push(j);
                    t.missing = t.missing + 1;
                    assert(items_view(t.items@) =~= items_view(held).push(j@));
                    assert(t@ =~= goal->Ok_0);
                },
                ResolvedRead::Found { entry, conversation, truth } => {
                    let limit = exact_read_char_limit(count, &item, &entry, conversation);
                    let left: usize = if count == 1 {
                        limit
                    } else {
                        t.remaining_chars
                    };
                    let wanted: usize = match item.max_chars {
                        Some(n) => if n < 1 {
                            1
                        } else if n > limit {
                            limit
                        } else {
                            n
                        },
                        None => DEFAULT_READ_CHARS,
                    };
                    let max_chars: usize = if wanted < left {
                        wanted
                    } else {
                        left
                    };
                    let j = match render_read(&entry, &item, max_chars) {
                        Ok(j) => j,
                        Err(e) => {
                            return Err(e);
                        },
                    };
                    let j = put_truth(j, &truth);
                    proof {
                        lemma_read_text(entry, item, max_chars as int, truth);
                    }
                    let shown: usize = match j.get_text("text") {
                        Some(text) => text.as_str().unicode_len(),
                        None => 0,
                    };
                    let ghost held = t.items@;
                    t.items.push(j);
                    t.used.push(entry.id);
                    t.remaining_chars = left - shown;
                    t.generation = latest_generation(t.generation, entry.workspace_generation);
                    assert(items_view(t.items@) =~= items_view(held).push(j@));
                    assert(t@ =~= goal->Ok_0);
                },
            }
        }
        i = i + 1;
    }
    assert(all.take(i as int) =~= all);
    Ok(t)
}

/// Where the first reads fail, all fail in the same way.
proof fn lemma_read_prefix(count: int, reads: Seq<(ReadItem, ResolvedRead)>, n: int)
    requires
        0 <= n <= reads.len(),
    ensures
        read_all(count, reads.take(n)) is Err ==> read_all(count, reads) == read_all(
            count,
            reads.take(n),
        ),
    decreases reads.len() - n,
{
    if n == reads.len() {
        assert(reads.take(n) =~= reads);
    } else {
        lemma_read_prefix(count, reads, n + 1);
        assert(reads.take(n + 1).drop_last() =~= reads.take(n));
    }
}

/// Accepts as many reads as one request may have.
pub fn check_read_count(count: usize) -> (r: Result<(), ApiError>)
    ensures
        refusal(r) == if 1 <= count <= MAX_READ_REQUESTS {
            None
        } else {
            Some(ApiErrorV::Invalid("read requires between 1 and 32 exact requests"@))
        },
{
    if count == 0 || count > MAX_READ_REQUESTS {
        Err(ApiError::invalid("read requires between 1 and 32 exact requests"))
    } else {
        Ok(())
    }
}

pub open spec fn read_budget_gap(skipped: int) -> JsonV {
    object().with("kind"@, JsonV::Text("read_response_budget"@)).with(
        "skipped_requests"@,
        integer(skipped),
    ).with(
        "message"@,
        JsonV::Text("request the remaining exact entries in a follow-up read"@),
    )
}

pub open spec fn read_missing_gap(missing: int) -> JsonV {
    object().with("kind"@, JsonV::Text("read_entries_not_found"@)).with(
        "missing_requests"@,
        integer(missing),
    ).with(
        "message"@,
        JsonV::Text("missing entries were reported per item; valid exact reads were retained"@),
    )
}

/// The reply to a read.
pub open spec fn read_reply_of(
    session: Option<Seq<char>>,
    generation: int,
    count: int,
    t: TallyV,
) -> ReplyV {
    ReplyV {
        session_id: session,
        corpus_revision: Some(revision_text(generation)),
        status: if t.skipped == 0 && t.missing == 0 {
            ResponseStatus::Complete
        } else if t.used.len() == 0 {
            ResponseStatus::Degraded
        } else {
            ResponseStatus::Partial
        },
        data: object().with("workspace_generation"@, integer(generation)).with(
            "items"@,
            JsonV::Array(t.items),
        ).with("response_truncated"@, JsonV::Bool(t.skipped > 0)).with(
            "missing_requests"@,
            integer(t.missing),
        ).with("requested_count"@, integer(count)),
        gaps: (if t.skipped > 0 {
            seq![read_budget_gap(t.skipped)]
        } else {
            Seq::empty()
        }) + (if t.missing > 0 {
            seq![read_missing_gap(t.missing)]
        } else {
            Seq::empty()
        }),
    }
}

/// The reply to a read: partial where something was not returned, degraded where
/// nothing was.
pub fn read_reply(
    session_id: Option<String>,
    generation: i64,
    requested_count: usize,
    tally: ReadTally,
) -> (r: Reply)
    ensures
        r@ == read_reply_of(
            option_view(session_id),
            generation as int,
            requested_count as int,
            tally@,
        ),
{
    let status = if tally.skipped == 0 && tally.missing == 0 {
        ResponseStatus::Complete
    } else if tally.used.len() == 0 {
        ResponseStatus::Degraded
    } else {
        ResponseStatus::Partial
    };
    let mut gaps: Vec<Json> = Vec::new();
    if tally.skipped > 0 {
        gaps.push(
            Json::object().with("kind", Json::text("read_response_budget")).with(
                "skipped_requests",
                Json::count(tally.skipped),
            ).with(
                "message",
                Json::text("request the remaining exact entries in a follow-up read"),
            ),
        );
    }
    if tally.missing > 0 {
        gaps.push(
            Json::object().with("kind", Json::text("read_entries_not_found")).with(
                "missing_requests",
                Json::count(tally.missing),
            ).with(
                "message",
                Json::text(
                    "missing entries were reported per item; valid exact reads were retained",
                ),
            ),
        );
    }
    let data = Json::object().with("workspace_generation", Json::integer(generation)).with(
        "items",
        Json::array(tally.items),
    ).with("response_truncated", Json::Bool(tally.skipped > 0)).with(
        "missing_requests",
        Json::count(tally.missing),
    ).with("requested_count", Json::count(requested_count));
    let r = Reply {
        session_id,
        corpus_revision: Some(revision(generation)),
        status,
        data,
        gaps,
    };
    assert(r@.gaps =~= read_reply_of(
        option_view(session_id),
        generation as int,
        requested_count as int,
        tally@,
    ).gaps);
    r
}

}
