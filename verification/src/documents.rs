//! Laws of the documents that are written: each thing that was said stands under its
//! own heading, as it was said, and nothing that was said is lost.
use vstd::prelude::*;

#[allow(unused_imports)]
use crate::candidate::option_view;
#[allow(unused_imports)]
use crate::checkpoint::{
    checkpoint_text, item_line, item_lines, item_text, outside_lines, outside_ref, section_text,
    source_line, source_lines, text_or,
};
#[allow(unused_imports)]
use crate::evaluation::{backquoted, seed_text};
#[allow(unused_imports)]
use crate::files::{
    companion_text, description_of, description_status_of, file_name, limitations_of,
    provenance_of, said, BinaryUpload,
};
#[allow(unused_imports)]
use crate::json::JsonV;
#[allow(unused_imports)]
use crate::outside::{json_string, json_text, pretty_text, uuid_text};
#[allow(unused_imports)]
use crate::read::EntryRow;
#[allow(unused_imports)]
use crate::requests::CheckpointRequest;
#[allow(unused_imports)]
use crate::text::{decimal, has_prefix, joined, texts, trimmed};
#[allow(unused_imports)]
use crate::upsert::capture_text;
#[allow(unused_imports)]
use crate::write::bare_digest;

verus! {

// ---------------------------------------------------------------------------
// Lists
// ---------------------------------------------------------------------------

/// Lines, each behind a dash.
pub open spec fn dashed(lines: Seq<Seq<char>>) -> Seq<char>
    decreases lines.len(),
{
    if lines.len() == 0 {
        Seq::empty()
    } else {
        dashed(lines.drop_last()) + ("- "@ + lines.last() + "\n"@)
    }
}

/// How something recorded is told: each of several items on a line of its own, in
/// their order, a text as it is and anything else as JSON; a single text on one line;
/// and that nothing was recorded.
pub open spec fn is_told(body: Seq<char>, recorded: Option<JsonV>) -> bool {
    match recorded {
        Some(JsonV::Array(items)) => exists|lines: Seq<Seq<char>>| #[trigger]
            dashed(lines) == body && lines.len() == items.len() && forall|i: int|
                0 <= i < items.len() ==> (#[trigger] lines[i]) == match items[i] {
                    JsonV::Text(t) => t,
                    other => json_text(other),
                },
        Some(JsonV::Text(t)) => body == "- "@ + t + "\n"@,
        _ => body == "- None recorded.\n"@,
    }
}

proof fn lemma_items_are_dashed(items: Seq<JsonV>) -> (lines: Seq<Seq<char>>)
    ensures
        dashed(lines) == item_lines(items),
        lines.len() == items.len(),
        forall|i: int|
            0 <= i < items.len() ==> (#[trigger] lines[i]) == match items[i] {
                JsonV::Text(t) => t,
                other => json_text(other),
            },
    decreases items.len(),
{
    if items.len() == 0 {
        Seq::empty()
    } else {
        let front = lemma_items_are_dashed(items.drop_last());
        let last = match items.last() {
            JsonV::Text(t) => t,
            other => json_text(other),
        };
        let lines = front.push(last);
        assert(lines.drop_last() =~= front);
        lines
    }
}

/// What is told of something recorded.
proof fn lemma_part_is_told(heading: Seq<char>, recorded: Option<JsonV>) -> (body: Seq<char>)
    ensures
        is_told(body, recorded),
        section_text(heading, recorded) == "## "@ + heading + "\n\n"@ + body + "\n"@,
{
    match recorded {
        Some(JsonV::Array(items)) => {
            let lines = lemma_items_are_dashed(items);
            assert(dashed(lines) == item_lines(items));
            item_lines(items)
        },
        Some(JsonV::Text(t)) => item_line(t),
        _ => "- None recorded.\n"@,
    }
}

// ---------------------------------------------------------------------------
// Checkpoints
// ---------------------------------------------------------------------------

/// How the sources of a checkpoint are told: each entry by its path, its version and
/// its digest, on a line of its own, in their order.
pub open spec fn sources_told(body: Seq<char>, entries: Seq<EntryRow>) -> bool {
    if entries.len() == 0 {
        body == "- None recorded.\n"@
    } else {
        exists|lines: Seq<Seq<char>>| #[trigger]
            dashed(lines) == body && lines.len() == entries.len() && forall|i: int|
                0 <= i < entries.len() ==> (#[trigger] lines[i]) == "`"@ + entries[i].path@
                    + "` | version "@ + decimal(entries[i].version as int) + " | `sha256:"@
                    + entries[i].content_sha256@ + "`"@
    }
}

/// How references to something outside the workspace are told: each on a line of its
/// own, in their order, and no other reference.
pub open spec fn outside_told(body: Seq<char>, refs: Seq<Seq<char>>) -> bool {
    exists|lines: Seq<Seq<char>>| #[trigger]
        dashed(lines) == body && lines == refs.filter(
            |r: Seq<char>| has_prefix(r, "source_episode:"@) || has_prefix(r, "evidence:"@),
        ).map_values(|r: Seq<char>| "`"@ + r + "`"@)
}

proof fn lemma_source_lines(entries: Seq<EntryRow>) -> (lines: Seq<Seq<char>>)
    ensures
        dashed(lines) == source_lines(entries),
        lines.len() == entries.len(),
        forall|i: int|
            0 <= i < entries.len() ==> (#[trigger] lines[i]) == "`"@ + entries[i].path@
                + "` | version "@ + decimal(entries[i].version as int) + " | `sha256:"@
                + entries[i].content_sha256@ + "`"@,
    decreases entries.len(),
{
    if entries.len() == 0 {
        Seq::empty()
    } else {
        let front = lemma_source_lines(entries.drop_last());
        let e = entries.last();
        let last = "`"@ + e.path@ + "` | version "@ + decimal(e.version as int) + " | `sha256:"@
            + e.content_sha256@ + "`"@;
        let lines = front.push(last);
        assert(lines.drop_last() =~= front);
        reveal_strlit("- `");
        reveal_strlit("- ");
        reveal_strlit("`");
        reveal_strlit("`\n");
        reveal_strlit("\n");
        assert("- `"@ =~= "- "@ + "`"@);
        assert("`\n"@ =~= "`"@ + "\n"@);
        assert("- "@ + last + "\n"@ =~= source_line(e));
        lines
    }
}

proof fn lemma_outside_lines(refs: Seq<Seq<char>>) -> (lines: Seq<Seq<char>>)
    ensures
        dashed(lines) == outside_lines(refs),
        lines == refs.filter(
            |r: Seq<char>| has_prefix(r, "source_episode:"@) || has_prefix(r, "evidence:"@),
        ).map_values(|r: Seq<char>| "`"@ + r + "`"@),
    decreases refs.len(),
{
    let p = |r: Seq<char>| has_prefix(r, "source_episode:"@) || has_prefix(r, "evidence:"@);
    let f = |r: Seq<char>| "`"@ + r + "`"@;
    reveal(Seq::filter);
    if refs.len() == 0 {
        assert(refs.filter(p).map_values(f) =~= Seq::<Seq<char>>::empty());
        Seq::empty()
    } else {
        let front = lemma_outside_lines(refs.drop_last());
        if p(refs.last()) {
            let last = f(refs.last());
            let lines = front.push(last);
            assert(lines.drop_last() =~= front);
            reveal_strlit("- `");
            reveal_strlit("- ");
            reveal_strlit("`");
            reveal_strlit("`\n");
            reveal_strlit("\n");
            assert("- "@ + last + "\n"@ =~= "- `"@ + refs.last() + "`\n"@);
            assert(refs.filter(p) == refs.drop_last().filter(p).push(refs.last()));
            assert(lines =~= refs.filter(p).map_values(f));
            lines
        } else {
            front
        }
    }
}

/// What a checkpoint tells, part by part.
pub struct CheckpointParts {
    pub current_state: Seq<char>,
    pub decisions: Seq<char>,
    pub open_questions: Seq<char>,
    pub next_actions: Seq<char>,
    pub artifacts: Seq<char>,
    pub sources: Seq<char>,
    pub outside: Seq<char>,
}

pub open spec fn or_empty(text: Option<Seq<char>>) -> Seq<char> {
    match text {
        Some(t) => t,
        None => Seq::empty(),
    }
}

/// Each recorded part of the state of a checkpoint stands under its own heading, item
/// by item, and depends on that part alone; so do the sources, by path, version and
/// digest, and the references that lead out of the workspace. The head says which
/// checkpoint it is, of which generation, session and project, and what it is for.
pub proof fn lemma_checkpoint_tells_its_state(
    id: u128,
    generation: int,
    request: CheckpointRequest,
    entries: Seq<EntryRow>,
) -> (parts: CheckpointParts)
    ensures
        is_told(parts.current_state, request.state@.get("current_state"@)),
        is_told(parts.decisions, request.state@.get("decisions"@)),
        is_told(parts.open_questions, request.state@.get("open_questions"@)),
        is_told(parts.next_actions, request.state@.get("next_actions"@)),
        is_told(parts.artifacts, request.state@.get("artifacts"@)),
        sources_told(parts.sources, entries),
        outside_told(parts.outside, texts(request.source_refs@)),
        checkpoint_text(id, generation, request, entries)
            == "---\nbrunn_kind: checkpoint\ncheckpoint_id: "@ + uuid_text(id)
            + "\nworkspace_generation: "@ + decimal(generation) + "\nsession_id: "@
            + request.session_id@ + "\nparent_checkpoint_id: "@ + or_empty(
            option_view(request.parent_checkpoint_id),
        ) + "\nproject: "@ + or_empty(request.state@.get_text("project"@))
            + "\n---\n\n# Checkpoint: "@ + (match request.state@.get_text("objective"@) {
            Some(objective) => objective,
            None => "Resume durable work"@,
        }) + "\n\n"@ + ("## "@ + "Current state"@ + "\n\n"@ + parts.current_state + "\n"@) + ("## "@
            + "Decisions"@ + "\n\n"@ + parts.decisions + "\n"@) + ("## "@ + "Open questions"@
            + "\n\n"@ + parts.open_questions + "\n"@) + ("## "@ + "Next actions"@ + "\n\n"@
            + parts.next_actions + "\n"@) + ("## "@ + "Artifacts"@ + "\n\n"@ + parts.artifacts
            + "\n"@) + "## Exact source references\n\n"@ + parts.sources + (if parts.outside.len()
            == 0 {
            Seq::empty()
        } else {
            "\n## External source references\n\n"@ + parts.outside
        }),
{
    let state = request.state@;
    let lines = lemma_source_lines(entries);
    let others = lemma_outside_lines(texts(request.source_refs@));
    let parts = CheckpointParts {
        current_state: lemma_part_is_told("Current state"@, state.get("current_state"@)),
        decisions: lemma_part_is_told("Decisions"@, state.get("decisions"@)),
        open_questions: lemma_part_is_told("Open questions"@, state.get("open_questions"@)),
        next_actions: lemma_part_is_told("Next actions"@, state.get("next_actions"@)),
        artifacts: lemma_part_is_told("Artifacts"@, state.get("artifacts"@)),
        sources: if entries.len() == 0 {
            "- None recorded.\n"@
        } else {
            source_lines(entries)
        },
        outside: outside_lines(texts(request.source_refs@)),
    };
    assert(dashed(lines) == source_lines(entries));
    assert(dashed(others) == outside_lines(texts(request.source_refs@)));
    parts
}

// ---------------------------------------------------------------------------
// Descriptions of files
// ---------------------------------------------------------------------------

/// Whether something was said that is not blank.
pub open spec fn was_said(text: Option<String>) -> bool {
    text is Some && trimmed(text->0@).len() > 0
}

/// What the document that describes a file tells, part by part.
pub struct CompanionParts {
    pub head: Seq<char>,
    pub description: Seq<char>,
    pub provenance: Seq<char>,
    pub limitations: Seq<char>,
}

/// The document that describes a file says under its own heading, trimmed, what the
/// upload said of the file, of where it is from and of what it lacks. Its head says
/// which file it is, by path, digest, type and size, and whether a description was
/// given. Where the upload brings a document of its own, that is the document.
pub proof fn lemma_companion_tells_what_was_said(upload: BinaryUpload) -> (parts: CompanionParts)
    ensures
        upload.companion is Some ==> companion_text(upload) == upload.companion->0.content@,
        upload.companion is None ==> companion_text(upload) == parts.head
            + "\n\n## Description\n\n"@ + parts.description + "\n\n## Provenance\n\n"@
            + parts.provenance + "\n\n## Limitations\n\n"@ + parts.limitations + "\n"@,
        was_said(upload.description) ==> parts.description == trimmed(upload.description->0@),
        was_said(upload.provenance) ==> parts.provenance == trimmed(upload.provenance->0@),
        was_said(upload.limitations) ==> parts.limitations == trimmed(upload.limitations->0@),
        !was_said(upload.description) ==> parts.description == "Binary file `"@ + upload.path@
            + "` ("@ + upload.media_type@ + ", "@ + decimal(upload.size_bytes as int)
            + " bytes). Content-specific description is pending background inspection."@,
        parts.head == "---\nbrunn_kind: binary_description\nbinary_path: "@ + json_string(
            upload.path@,
        ) + "\ncontent_hash: "@ + json_string("sha256:"@ + bare_digest(upload.stored_hash@))
            + "\nmedia_type: "@ + json_string(upload.media_type@) + "\nsize_bytes: "@ + decimal(
            upload.size_bytes as int,
        ) + "\ndescription_status: "@ + (if was_said(upload.description) {
            "provided"@
        } else {
            "pending"@
        }) + "\n---\n\n# Binary: "@ + file_name(upload.path@),
        description_status_of(upload) == if upload.companion is Some {
            "byte_copied"@
        } else if was_said(upload.description) {
            "provided"@
        } else {
            "pending"@
        },
{
    CompanionParts {
        head: "---\nbrunn_kind: binary_description\nbinary_path: "@ + json_string(upload.path@)
            + "\ncontent_hash: "@ + json_string("sha256:"@ + bare_digest(upload.stored_hash@))
            + "\nmedia_type: "@ + json_string(upload.media_type@) + "\nsize_bytes: "@ + decimal(
            upload.size_bytes as int,
        ) + "\ndescription_status: "@ + (if was_said(upload.description) {
            "provided"@
        } else {
            "pending"@
        }) + "\n---\n\n# Binary: "@ + file_name(upload.path@),
        description: description_of(upload),
        provenance: provenance_of(upload),
        limitations: limitations_of(upload),
    }
}

proof fn lemma_same_between(a: Seq<char>, x: Seq<char>, y: Seq<char>, b: Seq<char>)
    requires
        a + x + b == a + y + b,
    ensures
        x == y,
{
    let s = a + x + b;
    let t = a + y + b;
    assert(x.len() == y.len()) by {
        assert(s.len() == a.len() + x.len() + b.len());
        assert(t.len() == a.len() + y.len() + b.len());
    }
    assert forall|i: int| 0 <= i < x.len() implies #[trigger] x[i] == y[i] by {
        assert(s[a.len() + i] == x[i]);
        assert(t[a.len() + i] == y[i]);
    }
    assert(x =~= y);
}

/// Two uploads that differ in what they say of the file, and in nothing else that is
/// told, have different documents.
pub proof fn lemma_descriptions_make_documents_differ(a: BinaryUpload, b: BinaryUpload)
    requires
        a.companion is None,
        b.companion is None,
        was_said(a.description),
        was_said(b.description),
        trimmed(a.description->0@) != trimmed(b.description->0@),
        a.path@ == b.path@,
        a.media_type@ == b.media_type@,
        a.stored_hash@ == b.stored_hash@,
        a.size_bytes == b.size_bytes,
        provenance_of(a) == provenance_of(b),
        limitations_of(a) == limitations_of(b),
    ensures
        companion_text(a) != companion_text(b),
{
    let p = lemma_companion_tells_what_was_said(a);
    let q = lemma_companion_tells_what_was_said(b);
    let front = p.head + "\n\n## Description\n\n"@;
    let back = "\n\n## Provenance\n\n"@ + provenance_of(a) + "\n\n## Limitations\n\n"@
        + limitations_of(a) + "\n"@;
    assert(companion_text(a) =~= front + description_of(a) + back);
    assert(companion_text(b) =~= front + description_of(b) + back);
    if companion_text(a) == companion_text(b) {
        lemma_same_between(front, description_of(a), description_of(b), back);
    }
}

// ---------------------------------------------------------------------------
// Captures and seeds
// ---------------------------------------------------------------------------

/// A capture says what was captured, trimmed, and where it is from. Captures of
/// different content, or from different sources, have different documents.
pub proof fn lemma_captures_tell_content_and_source(
    content: Seq<char>,
    source: Seq<char>,
    other: Seq<char>,
)
    ensures
        exists|front: Seq<char>, middle: Seq<char>, back: Seq<char>|
            capture_text(content, source) == #[trigger] (front + trimmed(content) + middle) + source
                + #[trigger] (back + Seq::<char>::empty()),
        trimmed(content) != trimmed(other) ==> capture_text(content, source) != capture_text(
            other,
            source,
        ),
        source != other ==> capture_text(content, source) != capture_text(content, other),
{
    let front = "# Captured context\n\n"@;
    let middle = "\n\n## Source\n\n```json\n"@;
    let back = "\n```\n"@;
    let none = Seq::<char>::empty();
    assert(capture_text(content, source) =~= (front + trimmed(content) + middle) + source + (back
        + none));
    let tail = middle + source + back;
    assert(capture_text(content, source) =~= front + trimmed(content) + tail);
    assert(capture_text(other, source) =~= front + trimmed(other) + tail);
    if capture_text(content, source) == capture_text(other, source) {
        lemma_same_between(front, trimmed(content), trimmed(other), tail);
    }
    let head = front + trimmed(content) + middle;
    assert(capture_text(content, source) =~= head + source + back);
    assert(capture_text(content, other) =~= head + other + back);
    if capture_text(content, source) == capture_text(content, other) {
        lemma_same_between(head, source, other, back);
    }
}

/// The checkpoint that an import brings along tells its state as JSON and each of its
/// sources on a line of its own.
pub proof fn lemma_seeds_tell_state_and_sources(
    id: u128,
    generation: int,
    state: JsonV,
    refs: Seq<Seq<char>>,
)
    ensures
        exists|head: Seq<char>, listed: Seq<Seq<char>>|
            seed_text(id, generation, state, refs) == #[trigger] (head
                + "\n---\n\n# Seed checkpoint\n\n## State\n\n```json\n"@) + pretty_text(state)
                + "\n```\n\n## Source references\n\n"@ + (if refs.len() == 0 {
                "- None recorded."@
            } else {
                #[trigger] joined(listed, "\n"@)
            }) + "\n"@ && head == "---\nbrunn_kind: checkpoint\ncheckpoint_id: "@ + uuid_text(id)
                + "\nworkspace_generation: "@ + decimal(generation) && listed.len() == refs.len()
                && forall|i: int|
                0 <= i < refs.len() ==> #[trigger] listed[i] == "- `"@ + refs[i] + "`"@,
{
    let head = "---\nbrunn_kind: checkpoint\ncheckpoint_id: "@ + uuid_text(id)
        + "\nworkspace_generation: "@ + decimal(generation);
    let listed = backquoted(refs);
    assert(seed_text(id, generation, state, refs) == (head
        + "\n---\n\n# Seed checkpoint\n\n## State\n\n```json\n"@) + pretty_text(state)
        + "\n```\n\n## Source references\n\n"@ + (if refs.len() == 0 {
        "- None recorded."@
    } else {
        joined(listed, "\n"@)
    }) + "\n"@);
}

}
