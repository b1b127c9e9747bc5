//! Laws of judgement: by what a text is taken for a path, a clue or a summary of nothing,
//! when a step of a history is granted, and what belongs together.
use vstd::prelude::*;

#[allow(unused_imports)]
use crate::budget::{
    source_of, with_source, HydrationV, SearchRepresentation, ShownV,
};
#[allow(unused_imports)]
use crate::error::{ApiError, ApiErrorV};
#[allow(unused_imports)]
use crate::evaluation::{
    chunk_total, declares_feature, embedded_total, eval_identity, true_total, BulkMarkdown,
};
#[allow(unused_imports)]
use crate::files::{permitted_query, UploadPermission};
#[allow(unused_imports)]
use crate::history::{
    exact_action, imported, requested_stage, stage_of, TierAExactHistoryAction,
    TierAHistorySemantics, TierAHistoryStage,
};
#[allow(unused_imports)]
use crate::json::{alike, JsonV};
#[allow(unused_imports)]
use crate::lexical::{
    focus, is_acronym, is_distinctive, lemma_focus_is_order, pair_count, pair_rank, pair_text,
    ranked_pairs, reads_as_clue, reads_as_path, PairRank,
};
#[allow(unused_imports)]
use crate::open::{hint_refusal, hint_steps, is_reference};
#[allow(unused_imports)]
use crate::order::{lemma_sorted_in_order, lemma_sorted_permutes, sorted};
#[allow(unused_imports)]
use crate::outside::{lemma_uuid_is_read_back, uuid_text, uuid_value};
#[allow(unused_imports)]
use crate::paths::{
    checkpoint_of_path, checkpoint_ref_text, lemma_behind, managed, path_key, safe_path,
};
#[allow(unused_imports)]
use crate::receipts::{adoption_of, is_same_request, kept_sources, pinned_of, LegacyCheckpoint};
#[allow(unused_imports)]
use crate::requests::{CheckpointRequest, EvalImportRequest, StreamingBinaryQuery};
#[allow(unused_imports)]
use crate::seqs::{first_of, lemma_filter_places};
#[allow(unused_imports)]
use crate::text::{
    alphabetic, behind, first_from, has_any, has_prefix, lemma_first_from, lower_case, occurs, only,
    split, split_from, text_lines, upper_case, without_return, CharClass,
};
#[allow(unused_imports)]
use crate::upsert::{awaits_vectors, entry_lock_text};
#[allow(unused_imports)]
use crate::write::{
    awaited_parent, by_metadata, client_of, noop_summary, parent_of_import, DocumentFacts,
};

verus! {

// ---------------------------------------------------------------------------
// Texts
// ---------------------------------------------------------------------------

/// A text reads as a path exactly where it has a slash, not in front, and ends in the
/// extension of a document.
pub proof fn lemma_what_reads_as_a_path(s: Seq<char>)
    ensures
        reads_as_path(s) <==> {
            &&& exists|i: int| 0 < i < s.len() && #[trigger] s[i] == '/'
            &&& s[0] != '/'
            &&& ".md"@.is_suffix_of(s) || ".txt"@.is_suffix_of(s) || ".sql"@.is_suffix_of(s)
                || ".json"@.is_suffix_of(s) || ".jsonl"@.is_suffix_of(s) || ".csv"@.is_suffix_of(s)
        },
{
    reveal_strlit("/");
    assert("/"@.len() == 1 && "/"@[0] == '/');
    if reads_as_path(s) {
        let i = choose|i: int| 0 <= i < s.len() && CharClass::Is('/').has(#[trigger] s[i]);
        if s[0] == '/' {
            assert(s.take(1) =~= "/"@);
        }
        assert(s[i] == '/' && i > 0);
    }
    if s.len() > 0 && s[0] != '/' && has_prefix(s, "/"@) {
        assert(s[0] == "/"@[0]);
    }
    if exists|i: int| 0 < i < s.len() && #[trigger] s[i] == '/' {
        let i = choose|i: int| 0 < i < s.len() && #[trigger] s[i] == '/';
        assert(CharClass::Is('/').has(s[i]));
    }
}

/// A word reads as a clue exactly where it has an underscore, or a digit together with a
/// dash or a slash.
pub proof fn lemma_what_reads_as_a_clue(s: Seq<char>)
    ensures
        reads_as_clue(s) <==> {
            ||| exists|i: int| 0 <= i < s.len() && #[trigger] s[i] == '_'
            ||| (exists|i: int| 0 <= i < s.len() && '0' <= #[trigger] s[i] <= '9') && (exists|
                i: int,
            | 0 <= i < s.len() && (#[trigger] s[i] == '-' || s[i] == '/'))
        },
{
    let under = CharClass::Is('_');
    let digit = CharClass::AsciiDigit;
    let dash = CharClass::DashOrSlash;
    assert(has_any(s, under) <==> exists|i: int| 0 <= i < s.len() && #[trigger] s[i] == '_') by {
        if has_any(s, under) {
            let i = choose|i: int| 0 <= i < s.len() && under.has(#[trigger] s[i]);
            assert(s[i] == '_');
        }
        if exists|i: int| 0 <= i < s.len() && #[trigger] s[i] == '_' {
            let i = choose|i: int| 0 <= i < s.len() && #[trigger] s[i] == '_';
            assert(under.has(s[i]));
        }
    }
    assert(has_any(s, digit) <==> exists|i: int| 0 <= i < s.len() && '0' <= #[trigger] s[i]
        <= '9') by {
        if has_any(s, digit) {
            let i = choose|i: int| 0 <= i < s.len() && digit.has(#[trigger] s[i]);
            assert('0' <= s[i] <= '9');
        }
        if exists|i: int| 0 <= i < s.len() && '0' <= #[trigger] s[i] <= '9' {
            let i = choose|i: int| 0 <= i < s.len() && '0' <= #[trigger] s[i] <= '9';
            assert(digit.has(s[i]));
        }
    }
    assert(has_any(s, dash) <==> exists|i: int|
        0 <= i < s.len() && (#[trigger] s[i] == '-' || s[i] == '/')) by {
        if has_any(s, dash) {
            let i = choose|i: int| 0 <= i < s.len() && dash.has(#[trigger] s[i]);
            assert(s[i] == '-' || s[i] == '/');
        }
        if exists|i: int| 0 <= i < s.len() && (#[trigger] s[i] == '-' || s[i] == '/') {
            let i = choose|i: int| 0 <= i < s.len() && (#[trigger] s[i] == '-' || s[i] == '/');
            assert(dash.has(s[i]));
        }
    }
}

/// An acronym has at least two letters in upper case; a text of at least two letters that
/// are all in upper case is one.
pub proof fn lemma_acronyms(raw: Seq<char>)
    ensures
        is_acronym(raw) ==> exists|i: int, j: int|
            0 <= i < j < raw.len() && upper_case(#[trigger] raw[i]) && upper_case(#[trigger] raw[j]),
        (forall|i: int| 0 <= i < raw.len() ==> alphabetic(#[trigger] raw[i]) && upper_case(raw[i]))
            && raw.len() >= 2 ==> is_acronym(raw),
{
    let letter = |c: char| CharClass::Alphabetic.has(c);
    let upper = |c: char| upper_case(c);
    let letters = only(raw, CharClass::Alphabetic);
    let a = lemma_filter_places(raw, letter);
    let b = lemma_filter_places(letters, upper);
    if is_acronym(raw) {
        let i = a[b[0]];
        let j = a[b[1]];
        assert(b[0] < b[1]);
        assert(i < j);
        assert(upper_case(raw[i]) && upper_case(raw[j]));
    }
    if (forall|i: int| 0 <= i < raw.len() ==> alphabetic(#[trigger] raw[i]) && upper_case(raw[i]))
        && raw.len() >= 2 {
        lemma_filter_keeps_all(raw, letter);
        lemma_filter_keeps_all(raw, upper);
    }
}

proof fn lemma_filter_keeps_all(s: Seq<char>, p: spec_fn(char) -> bool)
    requires
        forall|i: int| 0 <= i < s.len() ==> p(#[trigger] s[i]),
    ensures
        s.filter(p) == s,
    decreases s.len(),
{
    reveal(Seq::filter);
    if s.len() > 0 {
        let before = s.drop_last();
        assert forall|i: int| 0 <= i < before.len() implies p(#[trigger] before[i]) by {
            assert(before[i] == s[i]);
        }
        lemma_filter_keeps_all(before, p);
        assert(p(s[s.len() - 1]));
        assert(before.push(s.last()) =~= s);
    }
}

proof fn lemma_split_shift(front: Seq<char>, rest: Seq<char>, class: CharClass, start: int)
    requires
        0 <= start <= rest.len(),
    ensures
        first_from(front + rest, class, front.len() + start) == front.len() + first_from(
            rest,
            class,
            start,
        ),
        split_from(front + rest, class, front.len() + start) == split_from(rest, class, start),
    decreases rest.len() - start,
{
    let s = front + rest;
    let n = front.len() as int;
    lemma_first_shift(front, rest, class, start);
    lemma_first_from(rest, class, start);
    let end = first_from(rest, class, start);
    if end < rest.len() {
        lemma_split_shift(front, rest, class, end + 1);
        assert(s.subrange(n + start, n + end) =~= rest.subrange(start, end));
        assert(n + (end + 1) == (n + end) + 1);
    } else {
        assert(s.subrange(n + start, s.len() as int) =~= rest.subrange(start, rest.len() as int));
    }
}

proof fn lemma_first_shift(front: Seq<char>, rest: Seq<char>, class: CharClass, start: int)
    requires
        0 <= start <= rest.len(),
    ensures
        first_from(front + rest, class, front.len() + start) == front.len() + first_from(
            rest,
            class,
            start,
        ),
    decreases rest.len() - start,
{
    if start < rest.len() {
        assert((front + rest)[front.len() + start] == rest[start]);
        if !class.has(rest[start]) {
            lemma_first_shift(front, rest, class, start + 1);
        }
    }
}

/// The lines of a text are its first line and the lines of the rest; a line ends at a line
/// feed, and a carriage return in front of it belongs to the end.
pub proof fn lemma_lines_end_at_line_feeds(line: Seq<char>, rest: Seq<char>)
    requires
        forall|i: int| 0 <= i < line.len() ==> #[trigger] line[i] != '\n',
    ensures
        text_lines(line.push('\n') + rest) == seq![without_return(line)] + text_lines(rest),
        text_lines(line.push('\r').push('\n') + rest) == seq![line] + text_lines(rest),
        line.len() > 0 && line.last() != '\r' ==> text_lines(line.push('\n') + rest)[0] == line,
{
    lemma_first_line(line, rest);
    let returned = line.push('\r');
    assert forall|i: int| 0 <= i < returned.len() implies #[trigger] returned[i] != '\n' by {
        if i < line.len() {
            assert(line[i] != '\n');
        }
    }
    lemma_first_line(returned, rest);
    assert(without_return(returned) =~= line);
}

proof fn lemma_first_line(line: Seq<char>, rest: Seq<char>)
    requires
        forall|i: int| 0 <= i < line.len() ==> #[trigger] line[i] != '\n',
    ensures
        text_lines(line.push('\n') + rest) == seq![without_return(line)] + text_lines(rest),
{
    let class = CharClass::Is('\n');
    let front = line.push('\n');
    let s = front + rest;
    lemma_first_from(s, class, 0);
    let end = first_from(s, class, 0);
    assert(s[line.len() as int] == '\n');
    if end < line.len() {
        assert(s[end] == line[end]);
    }
    if line.len() < end {
        assert(!class.has(s[line.len() as int]));
    }
    assert(end == line.len());
    lemma_split_shift(front, rest, class, 0);
    let tail = split_from(rest, class, 0);
    lemma_first_from(rest, class, 0);
    assert(tail.len() > 0);
    assert(s.subrange(0, end) =~= line);
    let pieces = split(s, class);
    assert(pieces == seq![line] + tail);
    assert(pieces.last() == tail.last());
    let f = |line: Seq<char>| without_return(line);
    assert(pieces.drop_last() =~= seq![line] + tail.drop_last());
    assert(pieces.drop_last().map_values(f) =~= seq![without_return(line)]
        + tail.drop_last().map_values(f));
    assert(text_lines(s) =~= seq![without_return(line)] + text_lines(rest));
}

/// A document is the summary of a session in which nothing was worth keeping exactly where
/// it is kept as a memory of an agent and says so.
pub proof fn lemma_summaries_of_nothing(path: Seq<char>, content: Seq<char>)
    ensures
        noop_summary(path, content) ==> "agent-memory/"@.is_prefix_of(path),
        "agent-memory/"@.is_prefix_of(path) && occurs(lower_case(content), "no durable memory"@)
            ==> noop_summary(path, content),
        "agent-memory/"@.is_prefix_of(path) && occurs(lower_case(content), "no durable memories"@)
            ==> noop_summary(path, content),
        "agent-memory/"@.is_prefix_of(path) && occurs(
            lower_case(content),
            "nothing durable could be extracted"@,
        ) ==> noop_summary(path, content),
        noop_summary(path, content) ==> occurs(lower_case(content), "no durable memory"@) || occurs(
            lower_case(content),
            "no durable memories"@,
        ) || occurs(lower_case(content), "nothing durable could be extracted"@),
{
}

// ---------------------------------------------------------------------------
// Focus
// ---------------------------------------------------------------------------

/// How many of two neighbouring terms tell documents apart.
pub open spec fn telling(terms: Seq<(Seq<char>, bool)>, i: int) -> int {
    (if terms[i].1 {
        1int
    } else {
        0
    }) + (if terms[i + 1].1 {
        1int
    } else {
        0
    })
}

/// Whether one pair of neighbouring terms must not stand behind another: it tells documents
/// apart better, or as well and it comes first, or neither does at all and it is longer.
pub open spec fn is_no_worse(terms: Seq<(Seq<char>, bool)>, i: int, j: int) -> bool {
    ||| telling(terms, i) > telling(terms, j)
    ||| telling(terms, i) == telling(terms, j) && telling(terms, i) > 0 && i <= j
    ||| telling(terms, i) == telling(terms, j) && telling(terms, i) == 0 && pair_rank(
        terms,
        i,
    ).length >= pair_rank(terms, j).length
}

/// The pairs of a query are ranked by how well they tell documents apart.
pub proof fn lemma_telling_pairs_come_first(query: Seq<char>) -> (places: Seq<int>)
    ensures
        ({
            let terms = first_of(crate::lexical::query_terms(query), 16);
            &&& places.len() == ranked_pairs(query).len()
            &&& forall|k: int|
                0 <= k < places.len() ==> 0 <= #[trigger] places[k] < terms.len() - 1
                    && ranked_pairs(query)[k] == terms[places[k]].0 + " "@ + terms[places[k]
                    + 1].0
            &&& forall|j: int, k: int|
                0 <= j < k < places.len() ==> is_no_worse(
                    terms,
                    #[trigger] places[j],
                    #[trigger] places[k],
                )
        }),
{
    broadcast use vstd::seq_lib::group_to_multiset_ensures;

    let terms = first_of(crate::lexical::query_terms(query), 16);
    let n = pair_count(terms);
    let ranks = Seq::new(n, |i: int| pair_rank(terms, i));
    let order = sorted(focus(), ranks);
    lemma_focus_is_order();
    lemma_sorted_permutes(focus(), ranks);
    lemma_sorted_in_order(focus(), ranks);
    let places = Seq::new(order.len(), |k: int| order[k].index as int);
    assert forall|k: int| 0 <= k < places.len() implies 0 <= #[trigger] places[k] < terms.len() - 1
        && order[k] == pair_rank(terms, places[k]) by {
        assert(order.contains(order[k]));
        assert(order.to_multiset().count(order[k]) > 0);
        assert(ranks.contains(order[k]));
        let i = choose|i: int| 0 <= i < ranks.len() && ranks[i] == order[k];
        assert(order[k].index == i);
    }
    assert forall|j: int, k: int| 0 <= j < k < places.len() implies is_no_worse(
        terms,
        #[trigger] places[j],
        #[trigger] places[k],
    ) by {
        assert(!focus()(order[k], order[j]));
        assert(order[j] == pair_rank(terms, places[j]));
        assert(order[k] == pair_rank(terms, places[k]));
        assert(order[j].distinctive == telling(terms, places[j]));
        assert(order[k].distinctive == telling(terms, places[k]));
    }
    places
}

// ---------------------------------------------------------------------------
// Sources
// ---------------------------------------------------------------------------

/// The best candidate of a query is shown as its whole source exactly where the source was
/// loaded, is no larger than allowed, and fits the room; then the others are leads.
pub proof fn lemma_whole_sources(v: Seq<ShownV>, loaded: Seq<HydrationV>, remaining: int)
    requires
        v.len() > 0,
        v[0].representation != SearchRepresentation::CompleteSource,
        v.len() > 1 ==> v[1].representation != SearchRepresentation::CompleteSource,
    ensures
        ({
            let r = with_source(v, loaded, remaining);
            let h = source_of(loaded, v[0].candidate.entry_id, 0);
            let whole = h is Some && h->0.size_bytes <= 24_000 && h->0.size_bytes <= remaining
                && h->0.content.len() <= remaining;
            &&& whole <==> r.value[0].representation == SearchRepresentation::CompleteSource
            &&& whole ==> r.value[0].complete_text == Some(h->0.content) && r.remaining == remaining
                - h->0.content.len() && forall|k: int|
                1 <= k < v.len() ==> (#[trigger] r.value[k]).representation
                    == SearchRepresentation::PointerLead && r.value[k].candidate == v[k].candidate
            &&& !whole ==> r.value == v && r.remaining == remaining && !r.truncated
        }),
{
}

// ---------------------------------------------------------------------------
// Writes
// ---------------------------------------------------------------------------

/// A document whose meaning lies in its metadata is a conversation or a task.
pub proof fn lemma_documents_by_metadata(facts: DocumentFacts)
    ensures
        by_metadata(facts) <==> facts.conversation_candidate || (facts.task is Ok
            && facts.task->Ok_0),
{
}

/// A document waits for its vectors exactly where one of its chunks has none.
pub proof fn lemma_waiting_documents(embedded: Seq<bool>)
    ensures
        awaits_vectors(embedded) <==> exists|i: int|
            0 <= i < embedded.len() && #[trigger] embedded[i] == false,
        embedded.len() == 0 ==> !awaits_vectors(embedded),
{
    if exists|i: int| 0 <= i < embedded.len() && #[trigger] embedded[i] == false {
        let i = choose|i: int| 0 <= i < embedded.len() && #[trigger] embedded[i] == false;
        assert(!embedded[i]);
    }
}

/// The entries of a user wait for each other exactly where their paths have the same key.
pub proof fn lemma_entries_lock_by_key(user: u128, a: Seq<char>, b: Seq<char>)
    ensures
        entry_lock_text(user, a) == entry_lock_text(user, b) <==> path_key(a) == path_key(b),
{
    let front = "simple-entry:"@ + uuid_text(user) + ":"@;
    assert(entry_lock_text(user, a) =~= front + path_key(a));
    assert(entry_lock_text(user, b) =~= front + path_key(b));
    if entry_lock_text(user, a) == entry_lock_text(user, b) {
        let n = front.len() as int;
        assert(path_key(a) =~= (front + path_key(a)).skip(n));
        assert(path_key(b) =~= (front + path_key(b)).skip(n));
    }
}

/// The parent of an imported checkpoint is the checkpoint that it names; where it names
/// none it has none, and a name that is no reference to a checkpoint is refused.
pub proof fn lemma_parents_are_those_named(metadata: JsonV, id: u128)
    ensures
        ({
            let named = client_of(metadata).get("parent_checkpoint_ref"@);
            &&& named is None || named == Some(JsonV::Null) ==> parent_of_import(metadata) == Ok::<
                Option<u128>,
                ApiErrorV,
            >(None)
            &&& named == Some(JsonV::Text(checkpoint_ref_text(id))) ==> parent_of_import(metadata)
                == Ok::<Option<u128>, ApiErrorV>(Some(id))
            &&& parent_of_import(metadata) matches Ok(Some(parent)) ==> named matches Some(
                JsonV::Text(t),
            ) && behind(t, "checkpoint:"@) is Some && uuid_value(behind(t, "checkpoint:"@)->0)
                == Some(parent)
        }),
{
    lemma_uuid_is_read_back(id);
    lemma_behind("checkpoint:"@, uuid_text(id));
}

/// No checkpoint is its own parent, and any other parent has to be there first.
pub proof fn lemma_no_checkpoint_is_its_own_parent(path: Seq<char>, metadata: JsonV)
    ensures
        awaited_parent(path, metadata) matches Ok(Some(parent)) ==> parent_of_import(metadata)
            == Ok::<Option<u128>, ApiErrorV>(Some(parent)) && checkpoint_of_path(path) is Some
            && checkpoint_of_path(path) != Some(parent),
        parent_of_import(metadata) == Ok::<Option<u128>, ApiErrorV>(None) ==> awaited_parent(
            path,
            metadata,
        ) == Ok::<Option<u128>, ApiErrorV>(None),
        parent_of_import(metadata) matches Ok(Some(parent)) && checkpoint_of_path(path) is Some
            && checkpoint_of_path(path) != parent_of_import(metadata)->Ok_0 ==> awaited_parent(
            path,
            metadata,
        ) == parent_of_import(metadata),
{
}

/// A step of a history is granted exactly where it comes from an import, stands directly
/// behind the version that is expected, and, where it keeps the content, is made for an
/// evaluation and not under a managed path.
pub proof fn lemma_steps_that_are_granted(
    path: Seq<char>,
    metadata: JsonV,
    expected: Option<i64>,
    evaluation: bool,
    stage: TierAHistoryStage,
)
    requires
        stage_of(metadata) == Ok::<Option<TierAHistoryStage>, ApiErrorV>(Some(stage)),
    ensures
        requested_stage(path, metadata, expected, evaluation) is Ok <==> {
            &&& imported(metadata)
            &&& expected matches Some(e) && e >= 0 && e + 1 == stage.target_lineage_ordinal
            &&& stage.semantics is PreserveIntentionalExactBytesVersion ==> evaluation && !managed(
                path,
            )
        },
        requested_stage(path, metadata, expected, evaluation) matches Ok(granted) ==> granted
            == Some(stage),
{
}

/// A step that keeps the content is appended exactly where the version before it is the
/// current one, has that content and is not deleted; it is there already exactly where the
/// current version is its target, with the same content and metadata.
pub proof fn lemma_steps_that_are_made(
    stage: TierAHistoryStage,
    current: i64,
    content_matches: bool,
    deleted: bool,
    metadata: JsonV,
    proposed: JsonV,
)
    requires
        stage.semantics == TierAHistorySemantics::PreserveIntentionalExactBytesVersion,
        stage_of(proposed) == Ok::<Option<TierAHistoryStage>, ApiErrorV>(Some(stage)),
    ensures
        ({
            let action = exact_action(
                Some(stage),
                Some(current),
                content_matches,
                deleted,
                Some(metadata),
                proposed,
            );
            &&& action == Ok::<TierAExactHistoryAction, ApiErrorV>(TierAExactHistoryAction::Append)
                <==> content_matches && !deleted && current == stage.target_lineage_ordinal - 1
            &&& action == Ok::<TierAExactHistoryAction, ApiErrorV>(
                TierAExactHistoryAction::Idempotent,
            ) <==> content_matches && !deleted && current == stage.target_lineage_ordinal && alike(
                metadata,
                proposed,
            )
            &&& action != Ok::<TierAExactHistoryAction, ApiErrorV>(
                TierAExactHistoryAction::NotRequested,
            )
        }),
        exact_action(Some(stage), None, content_matches, deleted, None, proposed) is Err,
        exact_action(None, Some(current), content_matches, deleted, Some(metadata), proposed)
            == Ok::<TierAExactHistoryAction, ApiErrorV>(TierAExactHistoryAction::NotRequested),
{
}

/// What is uploaded under a permission is what the permission says, whatever was asked
/// for; without one it is what was asked for.
pub proof fn lemma_permissions_decide(
    permission: Option<UploadPermission>,
    query: StreamingBinaryQuery,
    asked: StreamingBinaryQuery,
)
    requires
        permitted_query(permission, query, asked),
    ensures
        permission is None ==> query == asked,
        permission matches Some(p) ==> {
            &&& query.path@ == p.path@
            &&& query.media_type is Some && query.media_type->0@ == p.media_type@
            &&& p.sha256 matches Some(hash) ==> query.expected_content_hash@ == hash@
            &&& p.sha256 is None ==> query.expected_content_hash@.len() == 0
            &&& query.expected_version == p.expected_version
            &&& query.mode is None && query.mtime_ns is None && query.provenance is None
        },
{
}

// ---------------------------------------------------------------------------
// Hints
// ---------------------------------------------------------------------------

/// A hint is looked up as a reference exactly where it is written as one, and as a path
/// otherwise, which must be a safe one.
pub proof fn lemma_hints_are_references_or_paths(hint: Seq<char>)
    ensures
        is_reference(hint) <==> "entry:"@.is_prefix_of(hint) || "checkpoint:"@.is_prefix_of(hint)
            || uuid_value(hint) is Some,
        !is_reference(hint) ==> (hint_refusal(hint) is None <==> safe_path(hint)),
        !is_reference(hint) ==> hint_steps(hint) == crate::read::lookup_steps(Some(hint), None),
        is_reference(hint) ==> hint_steps(hint) == crate::read::lookup_steps(None, Some(hint)),
{
}

// ---------------------------------------------------------------------------
// Earlier checkpoints
// ---------------------------------------------------------------------------

/// The state that a checkpoint is pinned to is the one it says so of; without that it is
/// the one that it was made at.
pub proof fn lemma_pinned_states(client: JsonV, pinned: i64, made: i64)
    ensures
        client.get("pinned_workspace_generation"@) == Some(crate::json::integer(pinned as int))
            ==> pinned_of(client) == Some(pinned as int),
        client.get("pinned_workspace_generation"@) is None && client.get("workspace_generation"@)
            == Some(crate::json::integer(made as int)) ==> pinned_of(client) == Some(made as int),
        client.get("pinned_workspace_generation"@) is None && client.get(
            "workspace_generation"@,
        ) is None ==> pinned_of(client) is None,
{
}

/// The sources of a checkpoint that is taken over are those that it kept.
pub proof fn lemma_kept_sources(client: JsonV)
    ensures
        client.get("source_entries"@) matches Some(JsonV::Array(items)) ==> kept_sources(client)
            == items,
        client.get("source_entries"@) is None ==> kept_sources(client).len() == 0,
{
}

/// Where no earlier checkpoint has the key, none is taken over; where all that have it were
/// made by this request, the first is, with the state that it is pinned to.
pub proof fn lemma_adopted_checkpoints(
    rows: Seq<LegacyCheckpoint>,
    request: CheckpointRequest,
    key: Seq<char>,
)
    ensures
        rows.len() == 0 ==> adoption_of(rows, request, key) == Ok::<
            Option<crate::receipts::Adoption>,
            ApiErrorV,
        >(None),
        adoption_of(rows, request, key) matches Ok(Some(adoption)) ==> {
            &&& rows.len() > 0
            &&& forall|i: int| 0 <= i < rows.len() ==> is_same_request(#[trigger] rows[i], request)
            &&& client_of(rows[0].metadata@).get("kind"@) == Some(JsonV::Text("checkpoint"@))
            &&& pinned_of(client_of(rows[0].metadata@)) is Some
            &&& adoption.pinned_generation == pinned_of(client_of(rows[0].metadata@))->0
        },
        adoption_of(rows, request, key) == Ok::<Option<crate::receipts::Adoption>, ApiErrorV>(None)
            ==> rows.len() == 0,
{
    if rows.len() > 0 {
        let client = client_of(rows[0].metadata@);
        assert(client.get_text("kind"@) == Some("checkpoint"@) ==> client.get("kind"@) == Some(
            JsonV::Text("checkpoint"@),
        ));
    }
}

// ---------------------------------------------------------------------------
// Evaluations
// ---------------------------------------------------------------------------

/// A document declares a feature exactly where it supersedes another or is an intention.
pub proof fn lemma_declared_features(document: BulkMarkdown)
    ensures
        declares_feature(document) <==> document.supersedes@.len() > 0 || (
        document.declared_kind is Some && document.declared_kind->0@ == "intention"@),
{
}

/// The chunks of documents, and those among them that have their vectors, are counted one
/// document at a time.
pub proof fn lemma_chunks_are_counted(documents: Seq<BulkMarkdown>, more: BulkMarkdown)
    ensures
        chunk_total(documents.push(more)) == chunk_total(documents) + more.chunks@.len(),
        embedded_total(documents.push(more)) == embedded_total(documents) + true_total(
            more.embedded@,
        ),
        chunk_total(Seq::empty()) == 0,
        embedded_total(Seq::empty()) == 0,
{
    assert(documents.push(more).drop_last() =~= documents);
}

/// Flags are counted exactly where they are set.
pub proof fn lemma_flags_are_counted(flags: Seq<bool>, more: bool)
    ensures
        true_total(flags.push(more)) == true_total(flags) + (if more {
            1int
        } else {
            0
        }),
        true_total(Seq::empty()) == 0,
{
    assert(flags.push(more).drop_last() =~= flags);
}

/// Evaluations that differ in one of the parts that identify them have different
/// identities.
pub proof fn lemma_evaluations_are_told_apart(
    a: EvalImportRequest,
    b: EvalImportRequest,
    batched: bool,
)
    requires
        eval_identity(a, batched) == eval_identity(b, batched),
    ensures
        a.case_id@ == b.case_id@ && a.authorization_scope@ == b.authorization_scope@
            && a.idempotency_key@ == b.idempotency_key@ ==> a.run_id@ == b.run_id@,
        a.run_id@ == b.run_id@ && a.authorization_scope@ == b.authorization_scope@
            && a.idempotency_key@ == b.idempotency_key@ ==> a.case_id@ == b.case_id@,
        a.run_id@ == b.run_id@ && a.case_id@ == b.case_id@ && a.idempotency_key@
            == b.idempotency_key@ ==> a.authorization_scope@ == b.authorization_scope@,
        a.run_id@ == b.run_id@ && a.case_id@ == b.case_id@ && a.authorization_scope@
            == b.authorization_scope@ ==> a.idempotency_key@ == b.idempotency_key@,
{
    let h = (if batched {
        "simple-workspace-eval-batch-v1"@
    } else {
        "simple-workspace-eval-v1"@
    }) + "\0"@;
    let z = "\0"@;
    let x = eval_identity(a, batched);
    let y = eval_identity(b, batched);
    assert(x =~= h + a.run_id@ + (z + a.case_id@ + z + a.authorization_scope@ + z
        + a.idempotency_key@));
    assert(y =~= h + b.run_id@ + (z + b.case_id@ + z + b.authorization_scope@ + z
        + b.idempotency_key@));
    assert(x =~= (h + a.run_id@ + z) + a.case_id@ + (z + a.authorization_scope@ + z
        + a.idempotency_key@));
    assert(y =~= (h + b.run_id@ + z) + b.case_id@ + (z + b.authorization_scope@ + z
        + b.idempotency_key@));
    assert(x =~= (h + a.run_id@ + z + a.case_id@ + z) + a.authorization_scope@ + (z
        + a.idempotency_key@));
    assert(y =~= (h + b.run_id@ + z + b.case_id@ + z) + b.authorization_scope@ + (z
        + b.idempotency_key@));
    assert(x =~= (h + a.run_id@ + z + a.case_id@ + z + a.authorization_scope@ + z)
        + a.idempotency_key@ + Seq::<char>::empty());
    assert(y =~= (h + b.run_id@ + z + b.case_id@ + z + b.authorization_scope@ + z)
        + b.idempotency_key@ + Seq::<char>::empty());
    if a.case_id@ == b.case_id@ && a.authorization_scope@ == b.authorization_scope@
        && a.idempotency_key@ == b.idempotency_key@ {
        lemma_middle(
            h,
            a.run_id@,
            b.run_id@,
            z + a.case_id@ + z + a.authorization_scope@ + z + a.idempotency_key@,
        );
    }
    if a.run_id@ == b.run_id@ && a.authorization_scope@ == b.authorization_scope@
        && a.idempotency_key@ == b.idempotency_key@ {
        lemma_middle(
            h + a.run_id@ + z,
            a.case_id@,
            b.case_id@,
            z + a.authorization_scope@ + z + a.idempotency_key@,
        );
    }
    if a.run_id@ == b.run_id@ && a.case_id@ == b.case_id@ && a.idempotency_key@
        == b.idempotency_key@ {
        lemma_middle(
            h + a.run_id@ + z + a.case_id@ + z,
            a.authorization_scope@,
            b.authorization_scope@,
            z + a.idempotency_key@,
        );
    }
    if a.run_id@ == b.run_id@ && a.case_id@ == b.case_id@ && a.authorization_scope@
        == b.authorization_scope@ {
        lemma_middle(
            h + a.run_id@ + z + a.case_id@ + z + a.authorization_scope@ + z,
            a.idempotency_key@,
            b.idempotency_key@,
            Seq::<char>::empty(),
        );
    }
}

proof fn lemma_middle(front: Seq<char>, a: Seq<char>, b: Seq<char>, back: Seq<char>)
    requires
        front + a + back == front + b + back,
    ensures
        a == b,
{
    let x = front + a + back;
    let y = front + b + back;
    assert(x.len() == y.len());
    let n = front.len() as int;
    assert(a =~= x.subrange(n, n + a.len()));
    assert(b =~= y.subrange(n, n + b.len()));
}

/// A reference is looked up exactly where it leads somewhere.
pub proof fn lemma_references_that_are_looked_up(hint: Seq<char>)
    requires
        is_reference(hint),
    ensures
        hint_refusal(hint) is None <==> crate::read::lookup_steps(None, Some(hint)).len() > 0,
{
}

/// A checkpoint that names itself as its parent is told so.
pub proof fn lemma_own_parents_are_refused(path: Seq<char>, metadata: JsonV, id: u128)
    requires
        parent_of_import(metadata) == Ok::<Option<u128>, ApiErrorV>(Some(id)),
        checkpoint_of_path(path) == Some(id),
    ensures
        awaited_parent(path, metadata) matches Err(ApiErrorV::Conflict(code, _, details)) && code
            == "checkpoint_parent_cycle"@ && details.get("checkpoint_ref"@) == Some(
            JsonV::Text(checkpoint_ref_text(id)),
        ),
{
}

/// Metadata comes from an import exactly where it says so, in the known form.
pub proof fn lemma_what_is_imported(metadata: JsonV)
    ensures
        imported(metadata) <==> metadata.get("_brunn_import"@) is Some && metadata.get(
            "_brunn_import"@,
        )->0.get("format"@) == Some(JsonV::Text("brunn-workspace-import-manifest@v1"@)),
{
}

/// A term tells documents apart exactly where it has a digit, is an acronym, or joins
/// several parts.
pub proof fn lemma_distinctive_terms(raw: Seq<char>)
    ensures
        is_distinctive(raw) <==> {
            ||| exists|i: int|
                0 <= i < lower_case(raw).len() && '0' <= #[trigger] lower_case(raw)[i] <= '9'
            ||| is_acronym(raw)
            ||| exists|i: int|
                0 <= i < raw.len() && (#[trigger] raw[i] == '-' || raw[i] == '_' || raw[i] == '/'
                    || raw[i] == '.')
        },
{
    let low = lower_case(raw);
    let digit = CharClass::AsciiDigit;
    let joiner = CharClass::Joiner;
    if has_any(low, digit) {
        let i = choose|i: int| 0 <= i < low.len() && digit.has(#[trigger] low[i]);
        assert('0' <= low[i] <= '9');
    }
    if exists|i: int| 0 <= i < low.len() && '0' <= #[trigger] low[i] <= '9' {
        let i = choose|i: int| 0 <= i < low.len() && '0' <= #[trigger] low[i] <= '9';
        assert(digit.has(low[i]));
    }
    if has_any(raw, joiner) {
        let i = choose|i: int| 0 <= i < raw.len() && joiner.has(#[trigger] raw[i]);
        assert(raw[i] == '-' || raw[i] == '_' || raw[i] == '/' || raw[i] == '.');
    }
    if exists|i: int|
        0 <= i < raw.len() && (#[trigger] raw[i] == '-' || raw[i] == '_' || raw[i] == '/' || raw[i]
            == '.') {
        let i = choose|i: int|
            0 <= i < raw.len() && (#[trigger] raw[i] == '-' || raw[i] == '_' || raw[i] == '/'
                || raw[i] == '.');
        assert(joiner.has(raw[i]));
    }
}

/// A stream may grow exactly up to four gibibytes, and no further than is permitted.
pub proof fn lemma_streams_may_grow(size: int, chunk: int, permitted_size: Option<u64>)
    requires
        0 <= size,
        0 <= chunk,
    ensures
        crate::files::grown(size, chunk, permitted_size) is Ok <==> size + chunk <= 4 * 1024 * 1024
            * 1024 && (permitted_size matches Some(limit) ==> size + chunk <= limit),
        crate::files::grown(size, chunk, permitted_size) matches Ok(total) ==> total == size + chunk,
{
}

/// A source that is not what the checkpoint says is told of as a break of lineage.
pub proof fn lemma_broken_lineage_is_told(
    source: crate::resume::PinnedV,
    row: crate::deltas::PairRow,
)
    ensures
        crate::deltas::pair_refusal(source, row) matches Some(e) ==> (e matches ApiErrorV::Conflict(
            code,
            _,
            _,
        ) && code == "checkpoint_lineage_error"@),
{
}

/// The identity that is made from a value is that of the first sixteen bytes of its digest.
pub proof fn lemma_identities_come_from_digests(value: JsonV)
    ensures
        crate::checkpoint::id_of_json(value) == crate::outside::big_endian(
            crate::outside::sha256_digest(
                vstd::utf8::encode_utf8(crate::outside::json_text(value)),
            ).subrange(0, 16),
        ),
{
}

/// A score that is not below zero is its own bits; one below zero has the bits of its
/// opposite and the sign.
pub proof fn lemma_bits_of_scores(score: int)
    ensures
        0 <= score <= i64::MAX ==> crate::render::score_bits(score) == score,
        i64::MIN < score < 0 ==> crate::render::score_bits(score) == 0x8000_0000_0000_0000 - score,
{
}

/// A managed path may be written exactly where an import restores it and, where it claims
/// to be a conversation, it is a valid one of no more than twelve mebibytes.
pub proof fn lemma_managed_paths_that_may_be_written(
    request: crate::requests::WriteRequest,
    task: bool,
    conversation: crate::write::ConversationCheck,
)
    requires
        safe_path(request.path@),
        managed(request.path@),
    ensures
        crate::write::write_path_refusal(
            request,
            Ok::<bool, ApiErrorV>(task),
            conversation,
        ) is None <==> {
            &&& conversation is NotAsked || crate::paths::utf8_len(request.content@) <= 12 * 1024
                * 1024
            &&& !(conversation is Invalid)
            &&& crate::write::restores(request, task, conversation)
        },
{
}

/// A response is the reply it frames, with the request that it answers.
pub proof fn lemma_responses_frame_replies(
    e: crate::envelope::WorkspaceEnvelope<crate::json::Json>,
    reply: crate::envelope::ReplyV,
    request_id: Seq<char>,
    query_count: Option<usize>,
)
    requires
        crate::envelope::frames(e, reply, request_id, query_count),
    ensures
        e.request_id@ == request_id,
        reply.session_id matches Some(id) ==> e.session_id is Some && e.session_id->0@ == id,
        reply.session_id is None ==> e.session_id is None,
        reply.corpus_revision matches Some(r) ==> e.corpus_revision is Some && e.corpus_revision->0@
            == r,
        reply.corpus_revision is None ==> e.corpus_revision is None,
        e.status == reply.status,
        e.data@ == reply.data,
        e.gaps@.len() == reply.gaps.len(),
        forall|i: int| 0 <= i < reply.gaps.len() ==> (#[trigger] e.gaps@[i])@ == reply.gaps[i],
        e.query_count == query_count,
{
    assert(crate::json::items_view(e.gaps@).len() == e.gaps@.len());
    assert forall|i: int| 0 <= i < reply.gaps.len() implies (#[trigger] e.gaps@[i])@
        == reply.gaps[i] by {
        assert(crate::json::items_view(e.gaps@)[i] == e.gaps@[i]@);
    }
}

/// What is selected of each query is its beginning.
pub proof fn lemma_selections_are_beginnings(
    sets: Seq<Vec<crate::candidate::Candidate>>,
    fair: bool,
    max: int,
    selected: Seq<Vec<crate::candidate::Candidate>>,
    q: int,
    rank: int,
)
    requires
        crate::budget::shows_first(sets, fair, max, selected),
        0 <= q < sets.len(),
        0 <= rank < selected[q]@.len(),
    ensures
        selected.len() == sets.len(),
        rank < sets[q]@.len(),
        selected[q]@[rank]@ == sets[q]@[rank]@,
{
    let a = crate::candidate::candidates_view(selected[q]@);
    let b = crate::candidate::candidates_view(sets[q]@);
    assert(selected[q]@.len() <= sets[q]@.len());
    assert(a == b.take(selected[q]@.len() as int));
    assert(a[rank] == selected[q]@[rank]@);
    assert(b[rank] == sets[q]@[rank]@);
}

/// A checkpoint whose text was cut is told of as a gap.
pub proof fn lemma_cut_checkpoints_are_told()
    ensures
        crate::open::checkpoint_gap().get("kind"@) == Some(JsonV::Text("checkpoint_text_budget"@)),
{
    reveal_strlit("kind");
    reveal_strlit("message");
    assert("kind"@.len() == 4 && "message"@.len() == 7);
}

/// Bytes that are not those announced are told of with the path of their file.
pub proof fn lemma_other_bytes_are_told(path: Seq<char>)
    ensures
        crate::binary::hash_mismatch(path) matches ApiErrorV::Conflict(code, _, details) && code
            == "content_hash_mismatch"@ && details.get("path"@) == Some(JsonV::Text(path)),
{
}

/// An earlier checkpoint was made by a request exactly where it stands at the path that the
/// request would have given it in the session of the checkpoint.
pub proof fn lemma_checkpoints_of_a_request(
    row: LegacyCheckpoint,
    request: CheckpointRequest,
    session: Seq<char>,
)
    requires
        client_of(row.metadata@).get("session_id"@) == Some(JsonV::Text(session)),
    ensures
        is_same_request(row, request) <==> row.path@ == crate::paths::checkpoint_path_text(
            crate::checkpoint::id_of_json(
                crate::checkpoint::identity_in(request, session),
            ) as u128,
        ),
{
}

/// The first section shows the excerpt of its candidate; nothing else changes.
pub proof fn lemma_first_sections_show_the_excerpt(
    s: Seq<crate::candidate::SectionV>,
    excerpt: Seq<char>,
)
    ensures
        ({
            let r = crate::budget::with_primary(s, excerpt);
            &&& r.len() == s.len()
            &&& s.len() > 0 ==> r[0].excerpt == excerpt && r[0].heading == s[0].heading && r[0].score
                == s[0].score
            &&& forall|i: int| 1 <= i < s.len() ==> #[trigger] r[i] == s[i]
        }),
{
}

/// Text is left out with the later candidates exactly where one of them desires room.
pub proof fn lemma_later_desires(v: Seq<ShownV>)
    ensures
        crate::budget::later_desire(v) <==> exists|i: int|
            0 < i < v.len() && crate::budget::desired_chars(#[trigger] v[i]) >= 1,
{
    if exists|i: int| 0 < i < v.len() && crate::budget::desired_chars(#[trigger] v[i]) >= 1 {
        let i = choose|i: int| 0 < i < v.len() && crate::budget::desired_chars(#[trigger] v[i]) >= 1;
        assert(1 <= i && crate::budget::desired_chars(v[i]) > 0);
    }
}

/// What the client said of an imported checkpoint is brought into its new workspace where
/// it stands, and everything beside it stays.
pub proof fn lemma_imports_are_rebased_in_place(metadata: JsonV, generation: int, key: Seq<char>)
    requires
        metadata is Object,
    ensures
        ({
            let moved = crate::write::rebased(metadata, generation);
            &&& metadata.get("client"@) is Some && metadata.get("client"@)->0 is Object ==> moved.get(
                "client"@,
            ) == Some(
                crate::write::rebased_client(metadata.get("client"@)->0, generation),
            ) && (key != "client"@ ==> moved.get(key) == metadata.get(key))
            &&& metadata.get("client"@) is None ==> moved == crate::write::rebased_client(
                metadata,
                generation,
            )
        }),
{
}

/// A parent that is not there is told of by its reference.
pub proof fn lemma_missing_parents_are_told(parent: u128, message: Seq<char>)
    ensures
        crate::write::unresolved_parent(parent, message) matches ApiErrorV::Conflict(
            code,
            told,
            details,
        ) && code == "checkpoint_parent_unresolved"@ && told == message && details.get(
            "parent_checkpoint_ref"@,
        ) == Some(JsonV::Text(checkpoint_ref_text(parent))),
{
}

/// A candidate whose further sections are demoted is said to be cut exactly where its
/// excerpt is, or where a further section has text.
pub proof fn lemma_demotion_is_told(v: ShownV, available: int)
    requires
        available >= 0,
        v.representation == SearchRepresentation::Excerpt,
        v.demote_additional_sections,
    ensures
        ({
            let cut = crate::budget::budgeted(v, available);
            cut.truncated <==> cut.value.candidate.excerpt.len() < v.candidate.excerpt.len()
                || crate::budget::later_text(v.candidate.sections)
        }),
{
}

/// Each way in which the semantic lane can fail has a word of its own, and one that never
/// answered has failed.
pub proof fn lemma_words_for_failures()
    ensures
        crate::lanes::failure_word(None) == Some("semantic"@),
        crate::lanes::failure_word(Some(crate::lanes::SemanticOutcome::Failed)) == Some(
            "semantic"@,
        ),
        crate::lanes::failure_word(Some(crate::lanes::SemanticOutcome::Disabled)) == Some(
            "semantic_disabled"@,
        ),
        crate::lanes::failure_word(Some(crate::lanes::SemanticOutcome::IndexUnavailable)) == Some(
            "semantic_index_unavailable"@,
        ),
        crate::lanes::failure_word(Some(crate::lanes::SemanticOutcome::ReadinessError)) == Some(
            "semantic_readiness_error"@,
        ),
        crate::lanes::failure_word(Some(crate::lanes::SemanticOutcome::Deferred)) == Some(
            "semantic_deferred"@,
        ),
        crate::lanes::failure_word(Some(crate::lanes::SemanticOutcome::NotRequested)) is None,
{
}

/// A term with a digit or of ten characters counts most, one of six less, and a shorter one
/// least, wherever it is found.
pub proof fn lemma_longer_terms_count_more(
    term: Seq<char>,
    path_title: Seq<char>,
    heading: Seq<char>,
    excerpt: Seq<char>,
)
    ensures
        ({
            let b = crate::lexical::term_bonus(term, path_title, heading, excerpt);
            let found = |text: Seq<char>|
                crate::lexical::finds(
                    crate::lexical::search_words(text),
                    crate::lexical::search_letters(text),
                    term,
                );
            let heavy = has_any(term, CharClass::AsciiDigit) || term.len() >= 10;
            let plain = !heavy && term.len() >= 6;
            let light = !heavy && term.len() < 6;
            &&& found(path_title) ==> (heavy ==> b == crate::lexical::PATH_HEAVY) && (plain ==> b
                == crate::lexical::PATH_PLAIN) && (light ==> b == crate::lexical::PATH_LIGHT)
            &&& !found(path_title) && found(heading) ==> (heavy ==> b
                == crate::lexical::HEADING_HEAVY) && (plain ==> b == crate::lexical::HEADING_PLAIN)
                && (light ==> b == crate::lexical::HEADING_LIGHT)
            &&& !found(path_title) && !found(heading) && found(excerpt) ==> (heavy ==> b
                == crate::lexical::EXCERPT_HEAVY) && (plain ==> b == crate::lexical::EXCERPT_PLAIN)
                && (light ==> b == crate::lexical::EXCERPT_LIGHT)
        }),
        crate::lexical::PATH_HEAVY > crate::lexical::PATH_PLAIN > crate::lexical::PATH_LIGHT,
        crate::lexical::HEADING_HEAVY > crate::lexical::HEADING_PLAIN
            > crate::lexical::HEADING_LIGHT,
        crate::lexical::EXCERPT_HEAVY > crate::lexical::EXCERPT_PLAIN
            > crate::lexical::EXCERPT_LIGHT,
{
}

/// The plan of an upload says of the file what the upload says.
pub proof fn lemma_plans_follow_uploads(
    plan: crate::files::BinaryPlan,
    upload: crate::files::BinaryUpload,
)
    requires
        plan.is_of(upload),
    ensures
        plan.content_sha256@ == crate::write::bare_digest(upload.stored_hash@),
        plan.title@ == crate::files::file_name(upload.path@),
        plan.companion_path@ == crate::files::companion_path_of(upload),
        plan.description_status@ == crate::files::description_status_of(upload),
        plan.provenance@ == crate::files::provenance_of(upload),
        plan.limitations@ == crate::files::limitations_of(upload),
{
}

} // verus!
