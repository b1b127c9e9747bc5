//! Laws of reading: a view holds the lines it is meant to hold, what is told of an entry
//! is what the entry says, and every read is answered.
use vstd::prelude::*;

#[allow(unused_imports)]
use crate::candidate::option_view;
#[allow(unused_imports)]
use crate::error::ApiErrorV;
#[allow(unused_imports)]
use crate::json::{integer, object, optional_text, JsonV};
#[allow(unused_imports)]
use crate::outside::entry_ref_text;
#[allow(unused_imports)]
use crate::paths::{checkpoint_of_ref, checkpoint_path_text, entry_of_ref, managed, path_key};
#[allow(unused_imports)]
use crate::read::{
    content_of, effective_path, is_heading, line_range, lookup_steps, missing_json, no_reads,
    range_end, range_start, read_all, read_chars, read_json, read_limit, read_one, read_reply_of,
    room, says_something, view_name, viewed, with_truth, CurrentTruth, EntryRow, ResolvedRead,
    StepV, TallyV, DEFAULT_RANGE_LINES, DEFAULT_READ_CHARS,
};
#[allow(unused_imports)]
use crate::envelope::ResponseStatus;
#[allow(unused_imports)]
use crate::render::{hash_text, time_json};
#[allow(unused_imports)]
use crate::requests::ReadItem;
#[allow(unused_imports)]
use crate::text::{
    first_from, joined, lemma_first_from, text_lines, truncated, unicode_whitespace, CharClass,
};

verus! {

// ---------------------------------------------------------------------------
// Views
// ---------------------------------------------------------------------------

/// Whether a line begins with a number sign, whitespace in front aside.
pub open spec fn begins_with_sign(line: Seq<char>) -> bool {
    exists|k: int|
        0 <= k < line.len() && #[trigger] line[k] == '#' && forall|j: int|
            0 <= j < k ==> unicode_whitespace(#[trigger] line[j])
}

/// Whether a list is made of the lines at certain places, in their order.
pub open spec fn picks(list: Seq<Seq<char>>, lines: Seq<Seq<char>>, places: Seq<int>) -> bool {
    &&& list.len() == places.len()
    &&& forall|i: int| 0 <= i < places.len() ==> 0 <= #[trigger] places[i] < lines.len()
    &&& forall|i: int, j: int| 0 <= i < j < places.len() ==> #[trigger] places[i]
        < #[trigger] places[j]
    &&& forall|i: int| 0 <= i < list.len() ==> #[trigger] list[i] == lines[places[i]]
}

proof fn lemma_heading_is_sign(line: Seq<char>)
    ensures
        is_heading(line) <==> begins_with_sign(line),
{
    let class = CharClass::NotWhitespace;
    lemma_first_from(line, class, 0);
    let at = first_from(line, class, 0);
    if begins_with_sign(line) {
        let k = choose|k: int|
            0 <= k < line.len() && #[trigger] line[k] == '#' && forall|j: int|
                0 <= j < k ==> unicode_whitespace(#[trigger] line[j]);
        if at < k {
            assert(unicode_whitespace(line[at]));
        } else if k < at {
            assert(!class.has(line[k]));
        }
    }
    if is_heading(line) {
        assert forall|j: int| 0 <= j < at implies unicode_whitespace(#[trigger] line[j]) by {
            assert(!class.has(line[j]));
        }
        assert(line[at] == '#');
    }
}

proof fn lemma_headings(lines: Seq<Seq<char>>) -> (places: Seq<int>)
    ensures
        picks(lines.filter(|l: Seq<char>| is_heading(l)), lines, places),
        forall|n: int|
            0 <= n < lines.len() ==> (begins_with_sign(#[trigger] lines[n]) <==> places.contains(
                n,
            )),
    decreases lines.len(),
{
    let p = |l: Seq<char>| is_heading(l);
    reveal(Seq::filter);
    if lines.len() == 0 {
        Seq::empty()
    } else {
        let front = lines.drop_last();
        let held = lemma_headings(front);
        let kept = front.filter(p);
        let last = lines.len() - 1;
        lemma_heading_is_sign(lines.last());
        let places = if p(lines.last()) {
            held.push(last)
        } else {
            held
        };
        let list = lines.filter(p);
        assert forall|i: int| 0 <= i < list.len() implies #[trigger] list[i]
            == lines[places[i]] by {
            if i < kept.len() {
                assert(list[i] == kept[i]);
                assert(kept[i] == front[held[i]]);
            }
        }
        assert forall|i: int| 0 <= i < places.len() implies 0 <= #[trigger] places[i]
            < lines.len() by {
            if i < held.len() {
                assert(places[i] == held[i]);
            }
        }
        assert forall|n: int| 0 <= n < lines.len() implies (begins_with_sign(#[trigger] lines[n])
            <==> places.contains(n)) by {
            if n < last {
                assert(lines[n] == front[n]);
                assert(begins_with_sign(front[n]) <==> held.contains(n));
                if held.contains(n) {
                    let k = choose|k: int| 0 <= k < held.len() && held[k] == n;
                    assert(places[k] == n);
                }
                if places.contains(n) {
                    let k = choose|k: int| 0 <= k < places.len() && places[k] == n;
                    assert(held[k] == n);
                }
            } else {
                if p(lines.last()) {
                    assert(places[held.len() as int] == n);
                } else if places.contains(n) {
                    let k = choose|k: int| 0 <= k < places.len() && places[k] == n;
                    assert(held[k] < front.len());
                }
            }
        }
        places
    }
}

proof fn lemma_view_names()
    ensures
        "full"@ != "range"@ && "full"@ != "outline"@ && "range"@ != "outline"@,
        "current_state"@ != "range"@ && "current_state"@ != "outline"@,
        "current_truth"@ != "range"@ && "current_truth"@ != "outline"@,
{
    reveal_strlit("full");
    reveal_strlit("range");
    reveal_strlit("outline");
    reveal_strlit("current_state");
    reveal_strlit("current_truth");
    assert("full"@.len() == 4 && "range"@.len() == 5 && "outline"@.len() == 7);
    assert("current_state"@.len() == 13 && "current_truth"@.len() == 13);
}

/// An outline is made of exactly the lines that begin, after leading whitespace, with a
/// number sign, in the order of the text.
pub proof fn lemma_outline_holds_the_headings(content: Seq<char>, item: ReadItem) -> (r: (
    Seq<Seq<char>>,
    Seq<int>,
))
    requires
        item.view is Some,
        item.view->0@ == "outline"@,
    ensures
        viewed(content, item) == Some(joined(r.0, "\n"@)),
        picks(r.0, text_lines(content), r.1),
        forall|n: int|
            0 <= n < text_lines(content).len() ==> (begins_with_sign(
                #[trigger] text_lines(content)[n],
            ) <==> r.1.contains(n)),
{
    lemma_view_names();
    let places = lemma_headings(text_lines(content));
    (text_lines(content).filter(|l: Seq<char>| is_heading(l)), places)
}

/// A range is made of the lines from its first to its last, counted from one, as far as
/// there are any. Without a first it begins at the beginning, without a last it has two
/// hundred lines, and it never ends before it begins.
pub proof fn lemma_range_holds_its_lines(content: Seq<char>, item: ReadItem) -> (list: Seq<
    Seq<char>,
>)
    requires
        item.view is Some,
        item.view->0@ == "range"@,
    ensures
        viewed(content, item) == Some(joined(list, "\n"@)),
        ({
            let lines = text_lines(content);
            let first = if item.start is Some && item.start->0 > 0 {
                item.start->0 as int
            } else {
                1
            };
            let last = if item.end is None {
                first + 199
            } else if item.end->0 < first {
                first
            } else {
                item.end->0 as int
            };
            &&& forall|i: int|
                0 <= i < list.len() ==> first + i <= lines.len() && first + i <= last
                    && #[trigger] list[i] == lines[first - 1 + i]
            &&& first + list.len() > last || first + list.len() > lines.len()
        }),
{
    lemma_view_names();
    line_range(text_lines(content), range_start(item.start), range_end(item.start, item.end))
}

/// Every other view that there is shows the whole text.
pub proof fn lemma_other_views_show_everything(content: Seq<char>, item: ReadItem)
    ensures
        item.view is None ==> viewed(content, item) == Some(content),
        item.view is Some && (item.view->0@ == "full"@ || item.view->0@ == "current_state"@
            || item.view->0@ == "current_truth"@) ==> viewed(content, item) == Some(content),
        viewed(content, item) is None <==> item.view is Some && item.view->0@ != "full"@
            && item.view->0@ != "current_state"@ && item.view->0@ != "current_truth"@
            && item.view->0@ != "range"@ && item.view->0@ != "outline"@,
{
}

// ---------------------------------------------------------------------------
// What is told
// ---------------------------------------------------------------------------

proof fn lemma_read_members(entry: EntryRow, item: ReadItem, max_chars: int)
    requires
        read_json(entry, item, max_chars) is Some,
    ensures
        ({
            let j = read_json(entry, item, max_chars)->0;
            let text = viewed(content_of(entry), item)->0;
            &&& j is Object
            &&& j.get("reference"@) == Some(JsonV::Text(entry_ref_text(entry.id)))
            &&& j.get("path"@) == Some(JsonV::Text(entry.path@))
            &&& j.get("title"@) == Some(JsonV::Text(entry.title@))
            &&& j.get("version"@) == Some(integer(entry.version as int))
            &&& j.get("content_hash"@) == Some(JsonV::Text("sha256:"@ + entry.content_sha256@))
            &&& j.get("media_type"@) == Some(JsonV::Text(entry.media_type@))
            &&& j.get("updated_at"@) == Some(time_json(entry.updated_at))
            &&& j.get("text"@) == Some(JsonV::Text(truncated(text, max_chars)))
            &&& j.get("truncated"@) == if text.len() > max_chars {
                Some(JsonV::Bool(true))
            } else {
                None
            }
            &&& j.get("metadata"@) == if entry.metadata@ is Null || entry.metadata@ == object() {
                None
            } else {
                Some(entry.metadata@)
            }
            &&& j.get("current_truth_notice"@) is None
            &&& j.get("supersession_chain"@) is None
            &&& j.get("supersession_warning"@) is None
        }),
{
    reveal_strlit("reference");
    reveal_strlit("path");
    reveal_strlit("title");
    reveal_strlit("version");
    reveal_strlit("content_hash");
    reveal_strlit("media_type");
    reveal_strlit("view");
    reveal_strlit("text");
    reveal_strlit("updated_at");
    reveal_strlit("truncated");
    reveal_strlit("metadata");
    reveal_strlit("current_truth_notice");
    reveal_strlit("supersession_chain");
    reveal_strlit("supersession_warning");
    assert("reference"@.len() == 9 && "path"@.len() == 4 && "title"@.len() == 5 && "version"@.len() == 7 && "content_hash"@.len() == 12 && "media_type"@.len() == 10 && "view"@.len() == 4 && "text"@.len() == 4 && "updated_at"@.len() == 10 && "truncated"@.len() == 9 && "metadata"@.len() == 8 && "current_truth_notice"@.len() == 20 && "supersession_chain"@.len() == 18 && "supersession_warning"@.len() == 20);
    assert("path"@[0] != "view"@[0]);
    assert("path"@[0] != "text"@[0]);
    assert("view"@[0] != "text"@[0]);
    assert("media_type"@[0] != "updated_at"@[0]);
    assert("reference"@[0] != "truncated"@[0]);
    assert("current_truth_notice"@[0] != "supersession_warning"@[0]);
}

/// What is told of an entry is what the entry says: its reference, path, title,
/// version, digest, type, time and metadata, and the beginning of its text under the
/// view, with a note where that is not all of it. What was found out about the current
/// truth is added.
pub proof fn lemma_read_tells_the_entry(
    entry: EntryRow,
    item: ReadItem,
    max_chars: int,
    truth: CurrentTruth,
)
    requires
        read_json(entry, item, max_chars) is Some,
        max_chars >= 0,
    ensures
        ({
            let j = with_truth(read_json(entry, item, max_chars)->0, truth);
            let text = viewed(content_of(entry), item)->0;
            &&& j.get("reference"@) == Some(JsonV::Text(entry_ref_text(entry.id)))
            &&& j.get("path"@) == Some(JsonV::Text(entry.path@))
            &&& j.get("title"@) == Some(JsonV::Text(entry.title@))
            &&& j.get("version"@) == Some(integer(entry.version as int))
            &&& j.get("content_hash"@) == Some(JsonV::Text("sha256:"@ + entry.content_sha256@))
            &&& j.get("media_type"@) == Some(JsonV::Text(entry.media_type@))
            &&& j.get("updated_at"@) == Some(time_json(entry.updated_at))
            &&& j.get("text"@) is Some
            &&& text.len() <= max_chars ==> j.get_text("text"@) == Some(text)
            &&& text.len() > max_chars ==> j.get_text("text"@) == Some(text.take(max_chars))
            &&& j.get("truncated"@) is Some <==> text.len() > max_chars
            &&& j.get("metadata"@) == if entry.metadata@ is Null || entry.metadata@ == object() {
                None
            } else {
                Some(entry.metadata@)
            }
            &&& match truth {
                CurrentTruth::NotAsked => j.get("supersession_chain"@) is None && j.get(
                    "current_truth_notice"@,
                ) is None,
                CurrentTruth::Disabled => j.get("current_truth_notice"@) is Some,
                CurrentTruth::Resolved { chain, warning } => {
                    &&& j.get("supersession_chain"@) == Some(chain@)
                    &&& j.get("supersession_warning"@) == match warning {
                        Some(w) => Some(w@),
                        None => None,
                    }
                },
            }
        }),
{
    lemma_read_members(entry, item, max_chars);
    reveal_strlit("reference");
    reveal_strlit("path");
    reveal_strlit("title");
    reveal_strlit("version");
    reveal_strlit("content_hash");
    reveal_strlit("media_type");
    reveal_strlit("view");
    reveal_strlit("text");
    reveal_strlit("updated_at");
    reveal_strlit("truncated");
    reveal_strlit("metadata");
    reveal_strlit("current_truth_notice");
    reveal_strlit("supersession_chain");
    reveal_strlit("supersession_warning");
    assert("reference"@.len() == 9 && "path"@.len() == 4 && "title"@.len() == 5 && "version"@.len() == 7 && "content_hash"@.len() == 12 && "media_type"@.len() == 10 && "view"@.len() == 4 && "text"@.len() == 4 && "updated_at"@.len() == 10 && "truncated"@.len() == 9 && "metadata"@.len() == 8 && "current_truth_notice"@.len() == 20 && "supersession_chain"@.len() == 18 && "supersession_warning"@.len() == 20);
    assert("path"@[0] != "view"@[0]);
    assert("path"@[0] != "text"@[0]);
    assert("view"@[0] != "text"@[0]);
    assert("media_type"@[0] != "updated_at"@[0]);
    assert("reference"@[0] != "truncated"@[0]);
    assert("current_truth_notice"@[0] != "supersession_warning"@[0]);
}

/// What is told of an entry that was not found: what the read asked for, and why.
pub proof fn lemma_missing_tells_the_request(
    item: ReadItem,
    code: Seq<char>,
    message: Seq<char>,
    details: JsonV,
)
    ensures
        ({
            let j = missing_json(item, code, message, details);
            &&& j.get("status"@) == Some(JsonV::Text("not_found"@))
            &&& j.get("path"@) == Some(
                if item.path is Some {
                    JsonV::Text(item.path->0@)
                } else if item.link_target is Some {
                    JsonV::Text(item.link_target->0@)
                } else {
                    JsonV::Null
                },
            )
            &&& j.get("reference"@) == Some(
                if item.reference is Some {
                    JsonV::Text(item.reference->0@)
                } else {
                    JsonV::Null
                },
            )
            &&& j.get("error"@) is Some
            &&& j.get("error"@)->0.get("code"@) == Some(JsonV::Text(code))
            &&& j.get("error"@)->0.get("message"@) == Some(JsonV::Text(message))
            &&& j.get("error"@)->0.get("details"@) == Some(details)
            &&& j.get("text"@) is None
        }),
{
    reveal_strlit("text");
    assert("text"@.len() == 4);
    reveal_strlit("status");
    reveal_strlit("path");
    reveal_strlit("reference");
    reveal_strlit("link_target");
    reveal_strlit("error");
    reveal_strlit("code");
    reveal_strlit("message");
    reveal_strlit("details");
    assert("status"@.len() == 6 && "path"@.len() == 4 && "reference"@.len() == 9 && "link_target"@.len() == 11 && "error"@.len() == 5 && "code"@.len() == 4 && "message"@.len() == 7 && "details"@.len() == 7);
    assert("path"@[0] != "code"@[0]);
    assert("message"@[0] != "details"@[0]);
    assert("text"@[0] != "path"@[0]);
    assert("text"@[0] != "code"@[0]);
}

/// What is told of a read.
pub open spec fn tells_read(j: JsonV, read: (ReadItem, ResolvedRead)) -> bool {
    match read.1 {
        ResolvedRead::Found { entry, .. } => {
            &&& j.get("reference"@) == Some(JsonV::Text(entry_ref_text(entry.id)))
            &&& j.get("path"@) == Some(JsonV::Text(entry.path@))
            &&& j.get("version"@) == Some(integer(entry.version as int))
            &&& j.get_text("text"@) is Some
            &&& exists|n: int| #![trigger truncated(viewed(content_of(entry), read.0)->0, n)]
                j.get_text("text"@) == Some(truncated(viewed(content_of(entry), read.0)->0, n))
        },
        ResolvedRead::Missing { code, .. } => {
            &&& j.get("status"@) == Some(JsonV::Text("not_found"@))
            &&& j.get("error"@) is Some
            &&& j.get("error"@)->0.get("code"@) == Some(JsonV::Text(code@))
        },
        ResolvedRead::Failed { .. } => false,
    }
}

/// Every read is answered in its turn, or was skipped because the room was used up by
/// those before it; none is answered out of turn. As many are told to be missing as
/// were not found.
pub proof fn lemma_every_read_is_answered(count: int, reads: Seq<(ReadItem, ResolvedRead)>)
    requires
        count >= 1,
        reads.len() <= count,
        read_all(count, reads) is Ok,
    ensures
        ({
            let t = read_all(count, reads)->Ok_0;
            &&& t.items.len() + t.skipped == reads.len()
            &&& t.skipped > 0 ==> t.remaining == 0
            &&& t.used.len() + t.missing == t.items.len()
            &&& forall|i: int| 0 <= i < t.items.len() ==> tells_read(#[trigger] t.items[i], reads[i])
            &&& 0 <= t.remaining
            &&& 0 <= t.missing && 0 <= t.skipped
        }),
    decreases reads.len(),
{
    if reads.len() > 0 {
        let front = reads.drop_last();
        lemma_every_read_is_answered(count, front);
        let t = read_all(count, front)->Ok_0;
        let new = read_all(count, reads)->Ok_0;
        let item = reads.last().0;
        if t.remaining != 0 {
            match reads.last().1 {
                ResolvedRead::Failed { error } => {},
                ResolvedRead::Missing { code, message, details } => {
                    lemma_missing_tells_the_request(item, code@, message@, details@);
                },
                ResolvedRead::Found { entry, conversation, truth } => {
                    let limit = read_limit(count, item, entry, conversation);
                    let left = room(count, limit, t.remaining);
                    let n = read_chars(item, limit, left);
                    lemma_read_tells_the_entry(entry, item, n, truth);
                    let text = viewed(content_of(entry), item)->0;
                    assert(new.items.last().get_text("text"@) == Some(truncated(text, n)));
                },
            }
            assert(tells_read(new.items.last(), reads.last()));
        }
        assert forall|i: int| 0 <= i < new.items.len() implies tells_read(
            #[trigger] new.items[i],
            reads[i],
        ) by {
            if i < t.items.len() {
                assert(new.items[i] == t.items[i]);
                assert(tells_read(t.items[i], front[i]));
            }
        }
    }
}

/// An entry is looked for by the path that is named, as it is written; only then, and
/// never among managed paths, by its key. Without a path the reference decides: that of
/// a checkpoint leads to its path, that of an entry to the entry.
pub proof fn lemma_lookups_begin_with_the_path(path: Option<Seq<char>>, reference: Option<Seq<char>>)
    ensures
        path is Some ==> lookup_steps(path, reference).len() > 0 && lookup_steps(path, reference)[0]
            == StepV::Path(path->0),
        path is Some && managed(path->0) ==> lookup_steps(path, reference).len() == 1,
        path is Some && !managed(path->0) ==> lookup_steps(path, reference) == seq![
            StepV::Path(path->0),
            StepV::Key(path_key(path->0)),
        ],
        path is None && reference is None ==> lookup_steps(path, reference).len() == 0,
        path is None && reference is Some && checkpoint_of_ref(reference->0) is Some
            ==> lookup_steps(path, reference).len() > 0 && lookup_steps(path, reference)[0]
            == StepV::Path(checkpoint_path_text(checkpoint_of_ref(reference->0)->0)),
        path is None && reference is Some && checkpoint_of_ref(reference->0) is None
            && entry_of_ref(reference->0) is Some ==> lookup_steps(path, reference) == seq![
            StepV::Id(entry_of_ref(reference->0)->0),
        ],
{
}

/// A reply to reads is complete exactly where every entry was found and returned; it
/// says how many were asked for, how many were not found and whether some were left
/// out, and holds what was read.
pub proof fn lemma_reply_owns_up(
    session: Option<Seq<char>>,
    generation: int,
    count: int,
    t: TallyV,
)
    requires
        t.skipped >= 0,
        t.missing >= 0,
    ensures
        ({
            let r = read_reply_of(session, generation, count, t);
            &&& r.session_id == session
            &&& r.status is Complete <==> t.skipped == 0 && t.missing == 0
            &&& r.status is Degraded <==> (t.skipped > 0 || t.missing > 0) && t.used.len() == 0
            &&& r.gaps.len() == 0 <==> t.skipped == 0 && t.missing == 0
            &&& r.data.get("items"@) == Some(JsonV::Array(t.items))
            &&& r.data.get("workspace_generation"@) == Some(integer(generation))
            &&& r.data.get("response_truncated"@) == Some(JsonV::Bool(t.skipped > 0))
            &&& r.data.get("missing_requests"@) == Some(integer(t.missing))
            &&& r.data.get("requested_count"@) == Some(integer(count))
        }),
{
    reveal_strlit("items");
    reveal_strlit("workspace_generation");
    reveal_strlit("response_truncated");
    reveal_strlit("missing_requests");
    reveal_strlit("requested_count");
    assert("items"@.len() == 5 && "workspace_generation"@.len() == 20 && "response_truncated"@.len() == 18 && "missing_requests"@.len() == 16 && "requested_count"@.len() == 15);
}

}
