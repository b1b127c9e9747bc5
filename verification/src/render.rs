//! How candidates are written out, and how much of the sources behind them.
use vstd::prelude::*;

use crate::budget::{
    spend, SearchCandidateView, SearchRepresentation, MAX_EXCERPT_CHARS,
    MAX_OPEN_COMPLETE_SOURCE_CHARS,
};
#[allow(unused_imports)]
use crate::budget::{behind_note, fit, least, left_of, ShownV};
use crate::candidate::{Candidate, CandidateSection, SupersessionAnnotation};
#[allow(unused_imports)]
use crate::candidate::{annotation_view, candidates_view, AnnotationV, CandidateV, SectionV};
use crate::json::{Json, Number};
#[allow(unused_imports)]
use crate::json::{integer, items_view, object, JsonV, NumberV};
use crate::outside::{entry_ref, numeral, rfc3339};
#[allow(unused_imports)]
use crate::outside::{entry_ref_text, numeral_text, rfc3339_text};
#[allow(unused_imports)]
use crate::seqs::lemma_texts_push;
use crate::text::{cat, join, truncate_chars};
#[allow(unused_imports)]
use crate::text::{joined, texts, truncated};
use crate::verbatim::render_verbatim_matches;
#[allow(unused_imports)]
use crate::verbatim::quoted_matches;

verus! {

/// How many entries of a response are shown with their source.
pub const HYDRATED_DOCUMENT_LIMIT: usize = 8;

/// A point in time, written out; `null` where it cannot be.
pub open spec fn time_json(micros: i64) -> JsonV {
    match rfc3339_text(micros) {
        Some(t) => JsonV::Text(t),
        None => JsonV::Null,
    }
}

/// A point in time, written out.
pub fn time_value(micros: i64) -> (r: Json)
    ensures
        r@ == time_json(micros),
{
    match rfc3339(micros) {
        Some(t) => Json::Text(t),
        None => Json::Null,
    }
}

/// The bits of the number that a score is.
pub open spec fn score_bits(score: int) -> u64 {
    if score >= 0 {
        score as u64
    } else if score == i64::MIN {
        u64::MAX
    } else {
        (0x8000_0000_0000_0000 - score) as u64
    }
}

/// A score as a JSON number; `null` where it is infinite.
pub open spec fn score_json(score: int) -> JsonV {
    match numeral_text(score_bits(score)) {
        Some(t) => JsonV::Number(NumberV::Decimal(t)),
        None => JsonV::Null,
    }
}

/// A score as a JSON number; `null` where it is infinite.
pub fn write_score(score: i64) -> (r: Json)
    ensures
        r@ == score_json(score as int),
{
    let bits: u64 = if score >= 0 {
        score as u64
    } else if score == i64::MIN {
        u64::MAX
    } else {
        0x8000_0000_0000_0000 + (-score) as u64
    };
    match numeral(bits) {
        Some(t) => Json::Number(Number::Decimal(t)),
        None => Json::Null,
    }
}

pub open spec fn with_heading(j: JsonV, heading: Seq<char>) -> JsonV {
    if heading.len() == 0 {
        j
    } else {
        j.with("heading"@, JsonV::Text(heading))
    }
}

pub open spec fn with_note(j: JsonV, note: Option<AnnotationV>) -> JsonV {
    match note {
        Some(a) => j.with("superseded_by"@, a.value),
        None => j,
    }
}

pub open spec fn with_items(j: JsonV, key: Seq<char>, items: Seq<JsonV>) -> JsonV {
    if items.len() == 0 {
        j
    } else {
        j.with(key, JsonV::Array(items))
    }
}

fn put_heading(j: Json, heading: &str) -> (r: Json)
    ensures
        r@ == with_heading(j@, heading@),
{
    if heading.unicode_len() == 0 {
        j
    } else {
        j.with("heading", Json::text(heading))
    }
}

fn put_note(j: Json, note: &Option<SupersessionAnnotation>) -> (r: Json)
    ensures
        r@ == with_note(j@, annotation_view(*note)),
{
    match note {
        Some(a) => j.with("superseded_by", a.value.copy()),
        None => j,
    }
}

fn put_items(j: Json, key: &str, items: Vec<Json>) -> (r: Json)
    ensures
        r@ == with_items(j@, key@, items_view(items@)),
{
    if items.len() == 0 {
        j
    } else {
        j.with(key, Json::array(items))
    }
}

/// What identifies a candidate.
pub open spec fn candidate_head(c: CandidateV) -> JsonV {
    object().with("reference"@, JsonV::Text(entry_ref_text(c.entry_id))).with(
        "path"@,
        JsonV::Text(c.path),
    ).with("title"@, JsonV::Text(c.title)).with("version"@, integer(c.version)).with(
        "updated_at"@,
        time_json(c.updated_at),
    )
}

fn write_head(c: &Candidate) -> (r: Json)
    ensures
        r@ == candidate_head(c@),
{
    Json::object().with("reference", Json::Text(entry_ref(c.entry_id))).with(
        "path",
        Json::text(c.path.as_str()),
    ).with("title", Json::text(c.title.as_str())).with("version", Json::integer(c.version)).with(
        "updated_at",
        time_value(c.updated_at),
    )
}

/// A further section.
pub open spec fn section_json(s: SectionV) -> JsonV {
    with_heading(object().with("excerpt"@, JsonV::Text(s.excerpt)), s.heading)
}

fn write_section(s: &CandidateSection) -> (r: Json)
    ensures
        r@ == section_json(s@),
{
    put_heading(
        Json::object().with("excerpt", Json::text(s.excerpt.as_str())),
        s.heading.as_str(),
    )
}

/// The further sections of a candidate, all of them.
pub open spec fn further_sections(s: Seq<SectionV>) -> Seq<JsonV> {
    if s.len() == 0 {
        Seq::empty()
    } else {
        s.skip(1).map_values(|x: SectionV| section_json(x))
    }
}

pub open spec fn search_json(c: CandidateV, quotes: Seq<JsonV>) -> JsonV {
    let head = with_heading(
        candidate_head(c).with("excerpt"@, JsonV::Text(c.excerpt)),
        c.heading,
    );
    with_note(
        with_items(
            with_items(head, "additional_sections"@, further_sections(c.sections)),
            "verbatim_matches"@,
            quotes,
        ),
        c.superseded_by,
    )
}

/// Writes out a candidate of a search; quoted lines are paid for.
pub fn render_search_candidate(
    candidate: &Candidate,
    remaining_verbatim_chars: &mut usize,
) -> (r: Json)
    ensures
        r@ == search_json(
            candidate@,
            quoted_matches(
                candidate@.verbatim_matches,
                0,
                *old(remaining_verbatim_chars) as int,
            ).0,
        ),
        *final(remaining_verbatim_chars) == quoted_matches(
            candidate@.verbatim_matches,
            0,
            *old(remaining_verbatim_chars) as int,
        ).1,
{
    let head = put_heading(
        write_head(candidate).with("excerpt", Json::text(candidate.excerpt.as_str())),
        candidate.heading.as_str(),
    );
    let mut more: Vec<Json> = Vec::new();
    let ghost all = candidate@.sections;
    let ghost goal = further_sections(all);
    let mut i: usize = 1;
    while i < candidate.sections.len()
        invariant
            1 <= i,
            all == candidate@.sections,
            goal == further_sections(all),
            all.len() > 0 ==> i <= all.len(),
            all.len() > 0 ==> items_view(more@) == goal.take(i - 1),
            all.len() == 0 ==> more@.len() == 0,
        decreases candidate.sections@.len() - i,
    {
        let ghost held = more@;
        let item = write_section(&candidate.sections[i]);
        more.push(item);
        proof {
            assert(all[i as int] == candidate.sections@[i as int]@);
            assert(goal[i - 1] == section_json(all[i as int]));
            assert(items_view(more@) =~= items_view(held).push(item@));
            assert(goal.take(i as int) =~= goal.take(i - 1).push(goal[i - 1]));
        }
        i = i + 1;
    }
    proof {
        if all.len() > 0 {
            assert(goal.take(i - 1) =~= goal);
        } else {
            assert(items_view(more@) =~= goal);
        }
    }
    let quotes = render_verbatim_matches(candidate, remaining_verbatim_chars);
    put_note(
        put_items(put_items(head, "additional_sections", more), "verbatim_matches", quotes),
        &candidate.superseded_by,
    )
}

/// The word for a form.
pub open spec fn form_text(form: SearchRepresentation) -> Seq<char> {
    match form {
        SearchRepresentation::CompleteSource => "complete_source"@,
        SearchRepresentation::Excerpt => "excerpt"@,
        SearchRepresentation::PointerLead => "pointer_lead"@,
    }
}

/// A demoted section: a lead by its heading.
pub open spec fn demoted_json(s: SectionV, c: CandidateV) -> JsonV {
    object().with("representation"@, JsonV::Text("heading_lead"@)).with(
        "heading"@,
        JsonV::Text(s.heading),
    ).with("path"@, JsonV::Text(c.path)).with("version"@, integer(c.version))
}

/// Whether a further section is written out: a demoted one where it has a heading,
/// another one where it has an excerpt.
pub open spec fn is_written(s: SectionV, demoted: bool) -> bool {
    if demoted {
        s.heading.len() > 0
    } else {
        s.excerpt.len() > 0
    }
}

pub open spec fn written_section(s: SectionV, c: CandidateV, demoted: bool) -> JsonV {
    if demoted {
        demoted_json(s, c)
    } else {
        section_json(s)
    }
}

/// The further sections of a shown candidate that are written out.
pub open spec fn written_sections(s: Seq<SectionV>, c: CandidateV, demoted: bool) -> Seq<JsonV>
    decreases s.len(),
{
    if s.len() == 0 {
        Seq::empty()
    } else {
        let front = written_sections(s.drop_last(), c, demoted);
        if is_written(s.last(), demoted) {
            front.push(written_section(s.last(), c, demoted))
        } else {
            front
        }
    }
}

pub open spec fn hash_text(sha256: Seq<char>) -> Seq<char> {
    "sha256:"@ + sha256
}

pub open spec fn shown_json(v: ShownV, quotes: Seq<JsonV>) -> JsonV {
    let c = v.candidate;
    let head = with_heading(
        candidate_head(c).with("representation"@, JsonV::Text(form_text(v.representation))),
        c.heading,
    );
    let body = match v.representation {
        SearchRepresentation::CompleteSource => head.with(
            "content_hash"@,
            JsonV::Text(hash_text(c.content_sha256)),
        ).with(
            "text"@,
            JsonV::Text(
                match v.complete_text {
                    Some(t) => t,
                    None => Seq::empty(),
                },
            ),
        ),
        SearchRepresentation::PointerLead => head.with(
            "content_hash"@,
            JsonV::Text(hash_text(c.content_sha256)),
        ).with("score"@, score_json(c.score)),
        SearchRepresentation::Excerpt => with_items(
            head.with("excerpt"@, JsonV::Text(c.excerpt)),
            "additional_sections"@,
            if c.sections.len() == 0 {
                Seq::empty()
            } else {
                written_sections(c.sections.skip(1), c, v.demote_additional_sections)
            },
        ),
    };
    with_note(with_items(body, "verbatim_matches"@, quotes), c.superseded_by)
}

fn write_further_sections(view: &SearchCandidateView) -> (r: Vec<Json>)
    ensures
        items_view(r@) == if view@.candidate.sections.len() == 0 {
            Seq::empty()
        } else {
            written_sections(
                view@.candidate.sections.skip(1),
                view@.candidate,
                view@.demote_additional_sections,
            )
        },
{
    let c = &view.candidate;
    let demoted = view.demote_additional_sections;
    let mut out: Vec<Json> = Vec::new();
    let ghost all = c@.sections;
    let ghost tail = all.skip(1);
    let mut i: usize = 1;
    proof {
        if all.len() > 0 {
            assert(tail.take(0) =~= Seq::<SectionV>::empty());
            assert(items_view(out@) =~= written_sections(tail.take(0), c@, demoted));
        } else {
            assert(items_view(out@) =~= Seq::<JsonV>::empty());
        }
    }
    while i < c.sections.len()
        invariant
            1 <= i,
            c == view.candidate,
            demoted == view.demote_additional_sections,
            all == c@.sections,
            tail == all.skip(1),
            all.len() > 0 ==> i <= all.len(),
            all.len() > 0 ==> items_view(out@) == written_sections(tail.take(i - 1), c@, demoted),
            all.len() == 0 ==> items_view(out@) == Seq::<JsonV>::empty(),
        decreases c.sections@.len() - i,
    {
        let ghost held = out@;
        let s = &c.sections[i];
        proof {
            assert(all[i as int] == s@);
            assert(tail.take(i as int).drop_last() =~= tail.take(i - 1));
            assert(tail.take(i as int).last() == s@);
        }
        if demoted {
            if s.heading.as_str().unicode_len() > 0 {
                let item = Json::object().with("representation", Json::text("heading_lead")).with(
                    "heading",
                    Json::text(s.heading.as_str()),
                ).with("path", Json::text(c.path.as_str())).with(
                    "version",
                    Json::integer(c.version),
                );
                out.push(item);
                assert(items_view(out@) =~= items_view(held).push(item@));
            }
        } else if s.excerpt.as_str().unicode_len() > 0 {
            let item = write_section(s);
            out.push(item);
            assert(items_view(out@) =~= items_view(held).push(item@));
        }
        i = i + 1;
    }
    proof {
        if all.len() > 0 {
            assert(tail.take(i - 1) =~= tail);
        }
    }
    out
}

/// Writes out a candidate in the form it is shown in; quoted lines are paid for.
pub fn render_budgeted_search_candidate(
    view: &SearchCandidateView,
    remaining_verbatim_chars: &mut usize,
) -> (r: Json)
    ensures
        r@ == shown_json(
            view@,
            quoted_matches(
                view@.candidate.verbatim_matches,
                0,
                *old(remaining_verbatim_chars) as int,
            ).0,
        ),
        *final(remaining_verbatim_chars) == quoted_matches(
            view@.candidate.verbatim_matches,
            0,
            *old(remaining_verbatim_chars) as int,
        ).1,
{
    let c = &view.candidate;
    let form = match view.representation {
        SearchRepresentation::CompleteSource => "complete_source",
        SearchRepresentation::Excerpt => "excerpt",
        SearchRepresentation::PointerLead => "pointer_lead",
    };
    let head = put_heading(
        write_head(c).with("representation", Json::text(form)),
        c.heading.as_str(),
    );
    let body = match view.representation {
        SearchRepresentation::CompleteSource => {
            let text = match &view.complete_text {
                Some(t) => t.clone(),
                None => String::new(),
            };
            head.with(
                "content_hash",
                Json::Text(cat("sha256:", c.content_sha256.as_str())),
            ).with("text", Json::Text(text))
        },
        SearchRepresentation::PointerLead => head.with(
            "content_hash",
            Json::Text(cat("sha256:", c.content_sha256.as_str())),
        ).with("score", write_score(c.score)),
        SearchRepresentation::Excerpt => {
            let more = write_further_sections(view);
            put_items(
                head.with("excerpt", Json::text(c.excerpt.as_str())),
                "additional_sections",
                more,
            )
        },
    };
    let quotes = render_verbatim_matches(c, remaining_verbatim_chars);
    put_note(put_items(body, "verbatim_matches", quotes), &c.superseded_by)
}

pub open spec fn lead_json(c: CandidateV) -> JsonV {
    with_note(with_heading(candidate_head(c), c.heading), c.superseded_by)
}

/// Writes out a lead: what identifies the candidate, and nothing of its text.
pub fn render_evidence_lead(candidate: &Candidate) -> (r: Json)
    ensures
        r@ == lead_json(candidate@),
{
    put_note(
        put_heading(write_head(candidate), candidate.heading.as_str()),
        &candidate.superseded_by,
    )
}

// ---------------------------------------------------------------------------
// Sources
// ---------------------------------------------------------------------------

/// The excerpts of a candidate's sections that are not empty.
pub open spec fn excerpt_texts(s: Seq<SectionV>) -> Seq<Seq<char>>
    decreases s.len(),
{
    if s.len() == 0 {
        Seq::empty()
    } else {
        let front = excerpt_texts(s.drop_last());
        if s.last().excerpt.len() > 0 {
            front.push(s.last().excerpt)
        } else {
            front
        }
    }
}

/// What is shown of a candidate whose source is not shown whole: its sections with
/// empty lines between them, or else its excerpt.
pub open spec fn excerpt_of(c: CandidateV, max: int) -> Seq<char> {
    let combined = joined(excerpt_texts(c.sections), "\n\n"@);
    truncated(
        if combined.len() == 0 {
            c.excerpt
        } else {
            combined
        },
        max,
    )
}

pub fn candidate_excerpt(candidate: &Candidate, max_chars: usize) -> (r: String)
    ensures
        r@ == excerpt_of(candidate@, max_chars as int),
{
    let mut parts: Vec<String> = Vec::new();
    let ghost all = candidate@.sections;
    let mut i: usize = 0;
    assert(all.take(0) =~= Seq::<SectionV>::empty());
    assert(texts(parts@) =~= excerpt_texts(all.take(0)));
    while i < candidate.sections.len()
        invariant
            i <= candidate.sections@.len(),
            all == candidate@.sections,
            texts(parts@) == excerpt_texts(all.take(i as int)),
        decreases candidate.sections@.len() - i,
    {
        let ghost held = parts@;
        proof {
            assert(all.take(i + 1).drop_last() =~= all.take(i as int));
            assert(all.take(i + 1).last() == candidate.sections@[i as int]@);
        }
        if candidate.sections[i].excerpt.as_str().unicode_len() > 0 {
            let t = candidate.sections[i].excerpt.clone();
            parts.push(t);
            proof {
                lemma_texts_push(held, t);
            }
        }
        i = i + 1;
    }
    assert(all.take(i as int) =~= all);
    let combined = join(&parts, "\n\n");
    if combined.as_str().unicode_len() == 0 {
        truncate_chars(candidate.excerpt.as_str(), max_chars)
    } else {
        truncate_chars(combined.as_str(), max_chars)
    }
}

/// What was loaded of an entry.
#[derive(Debug)]
pub struct DocumentRow {
    pub entry_id: u128,
    pub size_bytes: i64,
    pub content: Option<String>,
}

#[verifier::ext_equal]
pub struct DocumentV {
    pub entry_id: u128,
    pub size_bytes: int,
    pub content: Option<Seq<char>>,
}

impl View for DocumentRow {
    type V = DocumentV;

    open spec fn view(&self) -> DocumentV {
        DocumentV {
            entry_id: self.entry_id,
            size_bytes: self.size_bytes as int,
            content: crate::candidate::option_view(self.content),
        }
    }
}

pub open spec fn documents_view(v: Seq<DocumentRow>) -> Seq<DocumentV> {
    v.map_values(|d: DocumentRow| d@)
}

/// The first document of an entry, from the `i`th on.
pub open spec fn document_of(v: Seq<DocumentV>, id: u128, i: int) -> Option<DocumentV>
    decreases v.len() - i,
{
    if i < 0 || i >= v.len() {
        None
    } else if v[i].entry_id == id {
        Some(v[i])
    } else {
        document_of(v, id, i + 1)
    }
}

fn find_document(rows: &Vec<DocumentRow>, id: u128) -> (r: Option<&DocumentRow>)
    ensures
        match r {
            Some(d) => document_of(documents_view(rows@), id, 0) == Some(d@),
            None => document_of(documents_view(rows@), id, 0) is None,
        },
{
    let mut i: usize = 0;
    while i < rows.len()
        invariant
            i <= rows@.len(),
            document_of(documents_view(rows@), id, 0) == document_of(
                documents_view(rows@),
                id,
                i as int,
            ),
        decreases rows@.len() - i,
    {
        assert(documents_view(rows@)[i as int] == rows@[i as int]@);
        if rows[i].entry_id == id {
            return Some(&rows[i]);
        }
        i = i + 1;
    }
    None
}

/// What is shown of one candidate: its whole source, or so many characters of its
/// excerpts.
#[derive(Clone, Copy, Debug, PartialEq, Eq, Structural)]
pub struct EvidenceStep {
    pub index: usize,
    pub complete: bool,
    pub excerpt_chars: usize,
}

/// What is shown of the candidates from the `i`th on with a budget of characters: in
/// turn, whole sources where they fit, and excerpts of the others. Candidates
/// without a source are passed over.
pub open spec fn evidence_steps(
    cs: Seq<CandidateV>,
    docs: Seq<DocumentV>,
    i: int,
    remaining: int,
) -> Seq<EvidenceStep>
    decreases cs.len() - i,
{
    if i < 0 || i >= cs.len() || i >= HYDRATED_DOCUMENT_LIMIT {
        Seq::empty()
    } else {
        let left = behind_note(cs[i].superseded_by, remaining);
        if left <= 0 {
            Seq::empty()
        } else {
            match document_of(docs, cs[i].entry_id, 0) {
                None => evidence_steps(cs, docs, i + 1, left),
                Some(d) => if d.size_bytes < 0 {
                    evidence_steps(cs, docs, i + 1, left)
                } else if d.size_bytes <= left && d.size_bytes <= MAX_OPEN_COMPLETE_SOURCE_CHARS {
                    seq![EvidenceStep { index: i as usize, complete: true, excerpt_chars: 0 }]
                        + evidence_steps(cs, docs, i + 1, left - d.size_bytes)
                } else {
                    let n = least(left, MAX_EXCERPT_CHARS as int);
                    seq![
                        EvidenceStep {
                            index: i as usize,
                            complete: false,
                            excerpt_chars: n as usize,
                        },
                    ] + evidence_steps(cs, docs, i + 1, left - n)
                },
            }
        }
    }
}

/// Four characters for every token.
pub fn chars_of_tokens(tokens: usize) -> (r: usize)
    ensures
        r == fit(4 * tokens),
{
    if tokens > usize::MAX / 4 {
        usize::MAX
    } else {
        tokens * 4
    }
}

/// Plans what is shown of the candidates' sources.
pub fn plan_evidence(
    candidates: &Vec<Candidate>,
    documents: &Vec<DocumentRow>,
    token_budget: usize,
) -> (r: Vec<EvidenceStep>)
    ensures
        r@ == evidence_steps(
            candidates_view(candidates@),
            documents_view(documents@),
            0,
            fit(4 * token_budget),
        ),
{
    let ghost cs = candidates_view(candidates@);
    let ghost docs = documents_view(documents@);
    let ghost goal = evidence_steps(cs, docs, 0, fit(4 * token_budget));
    let mut steps: Vec<EvidenceStep> = Vec::new();
    let mut remaining = chars_of_tokens(token_budget);
    let mut i: usize = 0;
    assert(steps@ + goal =~= goal);
    while i < candidates.len() && i < HYDRATED_DOCUMENT_LIMIT
        invariant
            i <= candidates@.len(),
            cs == candidates_view(candidates@),
            docs == documents_view(documents@),
            goal == evidence_steps(cs, docs, 0, fit(4 * token_budget)),
            steps@ + evidence_steps(cs, docs, i as int, remaining as int) == goal,
        decreases candidates@.len() - i,
    {
        assert(cs[i as int] == candidates@[i as int]@);
        let left: usize = match &candidates[i].superseded_by {
            Some(a) => spend(remaining, a.chars()),
            None => remaining,
        };
        if left == 0 {
            assert(steps@ =~= goal);
            return steps;
        }
        match find_document(documents, candidates[i].entry_id) {
            None => {
                remaining = left;
            },
            Some(d) => {
                let size: i64 = d.size_bytes;
                if size < 0 {
                    remaining = left;
                } else if size as u64 <= left as u64 && size as u64
                    <= MAX_OPEN_COMPLETE_SOURCE_CHARS as u64 {
                    steps.push(EvidenceStep { index: i, complete: true, excerpt_chars: 0 });
                    remaining = left - size as usize;
                } else {
                    let n: usize = if left < MAX_EXCERPT_CHARS {
                        left
                    } else {
                        MAX_EXCERPT_CHARS
                    };
                    steps.push(EvidenceStep { index: i, complete: false, excerpt_chars: n });
                    remaining = left - n;
                }
            },
        }
        assert(steps@ + evidence_steps(cs, docs, i + 1, remaining as int) =~= goal);
        i = i + 1;
    }
    assert(steps@ =~= goal);
    steps
}

/// The characters that the planned steps may take.
pub open spec fn planned_chars(
    steps: Seq<EvidenceStep>,
    cs: Seq<CandidateV>,
    docs: Seq<DocumentV>,
) -> int
    decreases steps.len(),
{
    if steps.len() == 0 {
        0
    } else {
        let step = steps[0];
        (if step.complete {
            match document_of(docs, cs[step.index as int].entry_id, 0) {
                Some(d) => d.size_bytes,
                None => 0,
            }
        } else {
            step.excerpt_chars as int
        }) + planned_chars(steps.drop_first(), cs, docs)
    }
}

/// The plan never takes more than its budget, and never shows more than
/// `HYDRATED_DOCUMENT_LIMIT` sources.
pub proof fn lemma_evidence_within_budget(
    cs: Seq<CandidateV>,
    docs: Seq<DocumentV>,
    i: int,
    remaining: int,
)
    requires
        0 <= remaining <= usize::MAX,
        0 <= i,
    ensures
        0 <= planned_chars(evidence_steps(cs, docs, i, remaining), cs, docs) <= remaining,
        evidence_steps(cs, docs, i, remaining).len() <= left_of(
            HYDRATED_DOCUMENT_LIMIT as int,
            i,
        ),
    decreases cs.len() - i,
{
    let steps = evidence_steps(cs, docs, i, remaining);
    if i < cs.len() && i < HYDRATED_DOCUMENT_LIMIT {
        let left = behind_note(cs[i].superseded_by, remaining);
        if left > 0 {
            match document_of(docs, cs[i].entry_id, 0) {
                None => lemma_evidence_within_budget(cs, docs, i + 1, left),
                Some(d) => if d.size_bytes < 0 {
                    lemma_evidence_within_budget(cs, docs, i + 1, left);
                } else if d.size_bytes <= left && d.size_bytes <= MAX_OPEN_COMPLETE_SOURCE_CHARS {
                    lemma_evidence_within_budget(cs, docs, i + 1, left - d.size_bytes);
                    assert(steps.drop_first() =~= evidence_steps(
                        cs,
                        docs,
                        i + 1,
                        left - d.size_bytes,
                    ));
                } else {
                    let n = least(left, MAX_EXCERPT_CHARS as int);
                    lemma_evidence_within_budget(cs, docs, i + 1, left - n);
                    assert(steps.drop_first() =~= evidence_steps(cs, docs, i + 1, left - n));
                },
            }
        }
    }
}

/// The text that a step shows.
pub open spec fn step_text(step: EvidenceStep, c: CandidateV, docs: Seq<DocumentV>) -> Seq<char> {
    if step.complete {
        match document_of(docs, c.entry_id, 0) {
            Some(d) => match d.content {
                Some(t) => t,
                None => Seq::empty(),
            },
            None => Seq::empty(),
        }
    } else {
        excerpt_of(c, step.excerpt_chars as int)
    }
}

pub open spec fn evidence_json(step: EvidenceStep, c: CandidateV, text: Seq<char>) -> JsonV {
    with_note(
        with_heading(
            object().with("reference"@, JsonV::Text(entry_ref_text(c.entry_id))).with(
                "path"@,
                JsonV::Text(c.path),
            ).with("title"@, JsonV::Text(c.title)).with("version"@, integer(c.version)).with(
                "representation"@,
                JsonV::Text(
                    if step.complete {
                        "complete_source"@
                    } else {
                        "source_excerpt"@
                    },
                ),
            ).with("text"@, JsonV::Text(text)),
            c.heading,
        ),
        c.superseded_by,
    )
}

/// The evidence that the first `n` steps show; steps without text show none.
pub open spec fn evidence_items(
    steps: Seq<EvidenceStep>,
    cs: Seq<CandidateV>,
    docs: Seq<DocumentV>,
) -> Seq<JsonV>
    decreases steps.len(),
{
    if steps.len() == 0 {
        Seq::empty()
    } else {
        let front = evidence_items(steps.drop_last(), cs, docs);
        let step = steps.last();
        let c = cs[step.index as int];
        let text = step_text(step, c, docs);
        if text.len() == 0 {
            front
        } else {
            front.push(evidence_json(step, c, text))
        }
    }
}

/// Writes out the evidence of the planned steps.
pub fn render_evidence(
    steps: &Vec<EvidenceStep>,
    candidates: &Vec<Candidate>,
    documents: &Vec<DocumentRow>,
) -> (r: Vec<Json>)
    requires
        forall|k: int| 0 <= k < steps@.len() ==> (#[trigger] steps@[k]).index < candidates@.len(),
    ensures
        items_view(r@) == evidence_items(
            steps@,
            candidates_view(candidates@),
            documents_view(documents@),
        ),
{
    let ghost cs = candidates_view(candidates@);
    let ghost docs = documents_view(documents@);
    let mut out: Vec<Json> = Vec::new();
    let mut i: usize = 0;
    assert(steps@.take(0) =~= Seq::<EvidenceStep>::empty());
    assert(items_view(out@) =~= evidence_items(steps@.take(0), cs, docs));
    while i < steps.len()
        invariant
            i <= steps@.len(),
            cs == candidates_view(candidates@),
            docs == documents_view(documents@),
            forall|k: int|
                0 <= k < steps@.len() ==> (#[trigger] steps@[k]).index < candidates@.len(),
            items_view(out@) == evidence_items(steps@.take(i as int), cs, docs),
        decreases steps@.len() - i,
    {
        let ghost held = out@;
        let step = steps[i];
        proof {
            assert(steps@.take(i + 1).drop_last() =~= steps@.take(i as int));
            assert(steps@.take(i + 1).last() == step);
            assert(step.index < candidates@.len());
            assert(cs[step.index as int] == candidates@[step.index as int]@);
        }
        let c = &candidates[step.index];
        let text: String = if step.complete {
            match find_document(documents, c.entry_id) {
                Some(d) => match &d.content {
                    Some(t) => t.clone(),
                    None => String::new(),
                },
                None => String::new(),
            }
        } else {
            candidate_excerpt(c, step.excerpt_chars)
        };
        assert(text@ == step_text(step, c@, docs));
        if text.as_str().unicode_len() > 0 {
            let form = if step.complete {
                "complete_source"
            } else {
                "source_excerpt"
            };
            let item = put_note(
                put_heading(
                    Json::object().with("reference", Json::Text(entry_ref(c.entry_id))).with(
                        "path",
                        Json::text(c.path.as_str()),
                    ).with("title", Json::text(c.title.as_str())).with(
                        "version",
                        Json::integer(c.version),
                    ).with("representation", Json::text(form)).with(
                        "text",
                        Json::text(text.as_str()),
                    ),
                    c.heading.as_str(),
                ),
                &c.superseded_by,
            );
            out.push(item);
            assert(items_view(out@) =~= items_view(held).push(item@));
        }
        i = i + 1;
    }
    assert(steps@.take(i as int) =~= steps@);
    out
}

/// Every step of a plan is about one of the candidates.
pub proof fn lemma_steps_index(
    cs: Seq<CandidateV>,
    docs: Seq<DocumentV>,
    i: int,
    remaining: int,
    k: int,
)
    requires
        0 <= i,
        0 <= k < evidence_steps(cs, docs, i, remaining).len(),
    ensures
        i <= evidence_steps(cs, docs, i, remaining)[k].index < cs.len(),
    decreases cs.len() - i,
{
    let left = behind_note(cs[i].superseded_by, remaining);
    match document_of(docs, cs[i].entry_id, 0) {
        None => lemma_steps_index(cs, docs, i + 1, left, k),
        Some(d) => if d.size_bytes < 0 {
            lemma_steps_index(cs, docs, i + 1, left, k);
        } else if d.size_bytes <= left && d.size_bytes <= MAX_OPEN_COMPLETE_SOURCE_CHARS {
            if k > 0 {
                lemma_steps_index(cs, docs, i + 1, left - d.size_bytes, k - 1);
            }
        } else {
            let n = least(left, MAX_EXCERPT_CHARS as int);
            if k > 0 {
                lemma_steps_index(cs, docs, i + 1, left - n, k - 1);
            }
        },
    }
}

/// Shows what the sources of the candidates fit into a budget of tokens.
pub fn hydrate_candidates(
    candidates: &Vec<Candidate>,
    documents: &Vec<DocumentRow>,
    token_budget: usize,
) -> (r: Vec<Json>)
    ensures
        items_view(r@) == evidence_items(
            evidence_steps(
                candidates_view(candidates@),
                documents_view(documents@),
                0,
                fit(4 * token_budget),
            ),
            candidates_view(candidates@),
            documents_view(documents@),
        ),
{
    let steps = plan_evidence(candidates, documents, token_budget);
    proof {
        let cs = candidates_view(candidates@);
        let docs = documents_view(documents@);
        assert forall|k: int| 0 <= k < steps@.len() implies (#[trigger] steps@[k]).index
            < candidates@.len() by {
            lemma_steps_index(cs, docs, 0, fit(4 * token_budget), k);
        }
    }
    render_evidence(&steps, candidates, documents)
}

// ---------------------------------------------------------------------------
// Checkpoints
// ---------------------------------------------------------------------------

/// The text of a checkpoint cut to a budget of tokens.
pub open spec fn checkpoint_cut(checkpoint: Option<JsonV>, tokens: int) -> Option<JsonV> {
    match checkpoint {
        Some(v) => match v.get_text("text"@) {
            Some(t) => if t.len() > fit(4 * tokens) {
                Some(
                    v.with("text"@, JsonV::Text(truncated(t, fit(4 * tokens)))).with(
                        "text_truncated"@,
                        JsonV::Bool(true),
                    ),
                )
            } else {
                Some(v)
            },
            None => Some(v),
        },
        None => None,
    }
}

/// The tokens that a checkpoint leaves for evidence.
pub open spec fn tokens_after(checkpoint: Option<JsonV>, tokens: int) -> int {
    match checkpoint {
        Some(v) => match v.get_text("text"@) {
            Some(t) => (fit(4 * tokens) - least(t.len() as int, fit(4 * tokens))) / 4,
            None => tokens,
        },
        None => tokens,
    }
}

pub open spec fn checkpoint_is_cut(checkpoint: Option<JsonV>, tokens: int) -> bool {
    match checkpoint {
        Some(v) => match v.get_text("text"@) {
            Some(t) => t.len() > fit(4 * tokens),
            None => false,
        },
        None => false,
    }
}

pub open spec fn optional_json(v: Option<Json>) -> Option<JsonV> {
    match v {
        Some(v) => Some(v@),
        None => None,
    }
}

/// Cuts the text of a checkpoint to the budget of a response; gives whether it was
/// cut, and the tokens that are left for evidence.
pub fn apply_checkpoint_budget(checkpoint: Option<Json>, token_budget: usize) -> (r: (
    Option<Json>,
    bool,
    usize,
))
    ensures
        optional_json(r.0) == checkpoint_cut(optional_json(checkpoint), token_budget as int),
        r.1 == checkpoint_is_cut(optional_json(checkpoint), token_budget as int),
        r.2 == tokens_after(optional_json(checkpoint), token_budget as int),
{
    let total = chars_of_tokens(token_budget);
    match checkpoint {
        None => (None, false, token_budget),
        Some(value) => {
            let mut kept: Option<String> = None;
            let mut left: usize = token_budget;
            let mut cut = false;
            match value.get_text("text") {
                None => {},
                Some(text) => {
                    let n: usize = text.as_str().unicode_len();
                    if n > total {
                        kept = Some(truncate_chars(text.as_str(), total));
                        cut = true;
                        left = 0;
                    } else {
                        left = (total - n) / 4;
                    }
                },
            }
            match kept {
                Some(text) => (
                    Some(
                        value.with("text", Json::Text(text)).with(
                            "text_truncated",
                            Json::Bool(true),
                        ),
                    ),
                    cut,
                    left,
                ),
                None => (Some(value), cut, left),
            }
        },
    }
}

}
