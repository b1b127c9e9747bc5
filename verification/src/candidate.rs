//! Retrieval candidates: what a lane found of an entry, how the finds of several
//! lanes become one, and in what order they stand.
use vstd::prelude::*;

use crate::error::{ApiError, ApiErrorV};
use crate::json::{Json, JsonV};
use crate::order::{sort, Order};
#[allow(unused_imports)]
use crate::order::{
    is_order, is_sorted, lemma_sorted_in_order, lemma_sorted_map, lemma_sorted_permutes, sorted,
};
use crate::outside::compact_json;
#[allow(unused_imports)]
use crate::outside::json_text;
use crate::score::{add_scores, greater_score, ONE, TWO};
#[allow(unused_imports)]
use crate::score::{greater, is_code, lemma_sum_is_at_least, plus};
#[allow(unused_imports)]
use crate::seqs::{first_of, lemma_map_push, lemma_map_take, lemma_texts_push};
use crate::text::{before, lower, same};
#[allow(unused_imports)]
use crate::text::{
    lemma_text_less_asymmetric, lemma_text_less_irreflexive, lemma_text_less_total,
    lemma_text_less_transitive, text_less, texts, lower_case,
};

verus! {

/// What a further lane adds to a score: 0.15.
pub const LANE_BONUS: i64 = 0x3fc3_3333_3333_3333;

/// How many sections of an entry a candidate keeps.
pub const MAX_CANDIDATE_SECTIONS: usize = 3;

/// How many lines a candidate quotes.
pub const MAX_VERBATIM_MATCHES_PER_CANDIDATE: usize = 3;

/// A part of an entry that a lane found.
#[derive(Debug)]
pub struct CandidateSection {
    pub heading: String,
    pub excerpt: String,
    pub score: i64,
}

/// A line of an entry that holds a clue word for word.
#[derive(Debug)]
pub struct VerbatimMatch {
    pub line_no: usize,
    pub byte_start: usize,
    pub byte_end: usize,
    pub text: String,
    pub version: i64,
    pub content_hash: String,
    pub truncated: bool,
}

/// That an entry is superseded: the note that is shown.
#[derive(Debug)]
pub struct SupersessionAnnotation {
    pub value: Json,
}

/// What is known of an entry that may answer a query. The time of its last change
/// is in microseconds since the epoch, and its score is told by what stands for it.
#[derive(Debug)]
pub struct Candidate {
    pub entry_id: u128,
    pub path: String,
    pub title: String,
    pub version: i64,
    pub updated_at: i64,
    pub content_sha256: String,
    pub heading: String,
    pub excerpt: String,
    pub score: i64,
    pub lanes: Vec<String>,
    pub sections: Vec<CandidateSection>,
    pub verbatim_matches: Vec<VerbatimMatch>,
    pub superseded_by: Option<SupersessionAnnotation>,
}

#[verifier::ext_equal]
pub struct SectionV {
    pub heading: Seq<char>,
    pub excerpt: Seq<char>,
    pub score: int,
}

#[verifier::ext_equal]
pub struct MatchV {
    pub line_no: int,
    pub byte_start: int,
    pub byte_end: int,
    pub text: Seq<char>,
    pub version: int,
    pub content_hash: Seq<char>,
    pub truncated: bool,
}

#[verifier::ext_equal]
pub struct AnnotationV {
    pub value: JsonV,
}

impl AnnotationV {
    /// How many characters the note takes when it is written out.
    pub open spec fn chars(self) -> nat {
        json_text(self.value).len()
    }
}

#[verifier::ext_equal]
pub struct CandidateV {
    pub entry_id: u128,
    pub path: Seq<char>,
    pub title: Seq<char>,
    pub version: int,
    pub updated_at: i64,
    pub content_sha256: Seq<char>,
    pub heading: Seq<char>,
    pub excerpt: Seq<char>,
    pub score: int,
    pub lanes: Seq<Seq<char>>,
    pub sections: Seq<SectionV>,
    pub verbatim_matches: Seq<MatchV>,
    pub superseded_by: Option<AnnotationV>,
}

impl View for CandidateSection {
    type V = SectionV;

    open spec fn view(&self) -> SectionV {
        SectionV { heading: self.heading@, excerpt: self.excerpt@, score: self.score as int }
    }
}

impl View for VerbatimMatch {
    type V = MatchV;

    open spec fn view(&self) -> MatchV {
        MatchV {
            line_no: self.line_no as int,
            byte_start: self.byte_start as int,
            byte_end: self.byte_end as int,
            text: self.text@,
            version: self.version as int,
            content_hash: self.content_hash@,
            truncated: self.truncated,
        }
    }
}

impl View for SupersessionAnnotation {
    type V = AnnotationV;

    open spec fn view(&self) -> AnnotationV {
        AnnotationV { value: self.value@ }
    }
}

pub open spec fn sections_view(v: Seq<CandidateSection>) -> Seq<SectionV> {
    v.map_values(|s: CandidateSection| s@)
}

pub open spec fn matches_view(v: Seq<VerbatimMatch>) -> Seq<MatchV> {
    v.map_values(|m: VerbatimMatch| m@)
}

pub open spec fn candidates_view(v: Seq<Candidate>) -> Seq<CandidateV> {
    v.map_values(|c: Candidate| c@)
}

pub open spec fn annotation_view(a: Option<SupersessionAnnotation>) -> Option<AnnotationV> {
    match a {
        Some(a) => Some(a@),
        None => None,
    }
}

impl View for Candidate {
    type V = CandidateV;

    open spec fn view(&self) -> CandidateV {
        CandidateV {
            entry_id: self.entry_id,
            path: self.path@,
            title: self.title@,
            version: self.version as int,
            updated_at: self.updated_at,
            content_sha256: self.content_sha256@,
            heading: self.heading@,
            excerpt: self.excerpt@,
            score: self.score as int,
            lanes: texts(self.lanes@),
            sections: sections_view(self.sections@),
            verbatim_matches: matches_view(self.verbatim_matches@),
            superseded_by: annotation_view(self.superseded_by),
        }
    }
}

impl CandidateSection {
    pub fn copy(&self) -> (r: CandidateSection)
        ensures
            r@ == self@,
    {
        CandidateSection {
            heading: self.heading.clone(),
            excerpt: self.excerpt.clone(),
            score: self.score,
        }
    }
}

impl VerbatimMatch {
    pub fn copy(&self) -> (r: VerbatimMatch)
        ensures
            r@ == self@,
    {
        VerbatimMatch {
            line_no: self.line_no,
            byte_start: self.byte_start,
            byte_end: self.byte_end,
            text: self.text.clone(),
            version: self.version,
            content_hash: self.content_hash.clone(),
            truncated: self.truncated,
        }
    }
}

impl SupersessionAnnotation {
    pub fn copy(&self) -> (r: SupersessionAnnotation)
        ensures
            r@ == self@,
    {
        SupersessionAnnotation { value: self.value.copy() }
    }

    /// How many characters the note takes when it is written out.
    pub fn chars(&self) -> (r: usize)
        ensures
            r == self@.chars(),
    {
        compact_json(&self.value).as_str().unicode_len()
    }
}

/// The strings again.
pub fn copy_texts(v: &Vec<String>) -> (r: Vec<String>)
    ensures
        texts(r@) == texts(v@),
{
    let mut out: Vec<String> = Vec::new();
    let mut i: usize = 0;
    while i < v.len()
        invariant
            i <= v@.len(),
            texts(out@) == texts(v@).take(i as int),
        decreases v@.len() - i,
    {
        let ghost held = out@;
        let t = v[i].clone();
        out.push(t);
        proof {
            lemma_texts_push(held, t);
            assert(texts(v@).take(i + 1) =~= texts(v@).take(i as int).push(v@[i as int]@));
        }
        i = i + 1;
    }
    assert(texts(v@).take(i as int) =~= texts(v@));
    out
}

fn copy_sections(v: &Vec<CandidateSection>) -> (r: Vec<CandidateSection>)
    ensures
        sections_view(r@) == sections_view(v@),
{
    let mut out: Vec<CandidateSection> = Vec::new();
    let mut i: usize = 0;
    let ghost f = |s: CandidateSection| s@;
    while i < v.len()
        invariant
            i <= v@.len(),
            f == (|s: CandidateSection| s@),
            out@.map_values(f) == v@.take(i as int).map_values(f),
        decreases v@.len() - i,
    {
        let ghost held = out@;
        let s = v[i].copy();
        out.push(s);
        proof {
            lemma_map_push(held, f, s);
            lemma_map_take(v@, f, i as int);
        }
        i = i + 1;
    }
    assert(v@.take(i as int) =~= v@);
    out
}

fn copy_matches(v: &Vec<VerbatimMatch>) -> (r: Vec<VerbatimMatch>)
    ensures
        matches_view(r@) == matches_view(v@),
{
    let mut out: Vec<VerbatimMatch> = Vec::new();
    let mut i: usize = 0;
    let ghost f = |m: VerbatimMatch| m@;
    while i < v.len()
        invariant
            i <= v@.len(),
            f == (|m: VerbatimMatch| m@),
            out@.map_values(f) == v@.take(i as int).map_values(f),
        decreases v@.len() - i,
    {
        let ghost held = out@;
        let s = v[i].copy();
        out.push(s);
        proof {
            lemma_map_push(held, f, s);
            lemma_map_take(v@, f, i as int);
        }
        i = i + 1;
    }
    assert(v@.take(i as int) =~= v@);
    out
}

impl Candidate {
    /// The candidate again.
    pub fn copy(&self) -> (r: Candidate)
        ensures
            r@ == self@,
    {
        Candidate {
            entry_id: self.entry_id,
            path: self.path.clone(),
            title: self.title.clone(),
            version: self.version,
            updated_at: self.updated_at,
            content_sha256: self.content_sha256.clone(),
            heading: self.heading.clone(),
            excerpt: self.excerpt.clone(),
            score: self.score,
            lanes: copy_texts(&self.lanes),
            sections: copy_sections(&self.sections),
            verbatim_matches: copy_matches(&self.verbatim_matches),
            superseded_by: match &self.superseded_by {
                Some(a) => Some(a.copy()),
                None => None,
            },
        }
    }
}

/// The first `n` candidates of a list again.
pub fn copy_candidates(v: &Vec<Candidate>, n: usize) -> (r: Vec<Candidate>)
    requires
        n <= v@.len(),
    ensures
        candidates_view(r@) == candidates_view(v@).take(n as int),
{
    let mut out: Vec<Candidate> = Vec::new();
    let mut i: usize = 0;
    let ghost f = |c: Candidate| c@;
    while i < n
        invariant
            i <= n <= v@.len(),
            f == (|c: Candidate| c@),
            out@.map_values(f) == v@.take(i as int).map_values(f),
        decreases n - i,
    {
        let ghost held = out@;
        let c = v[i].copy();
        out.push(c);
        proof {
            lemma_map_push(held, f, c);
            lemma_map_take(v@, f, i as int);
        }
        i = i + 1;
    }
    assert(v@.take(n as int).map_values(f) =~= candidates_view(v@).take(n as int));
    out
}

// ---------------------------------------------------------------------------
// Scores
// ---------------------------------------------------------------------------

/// What a score loses because the entry is derived from others.
pub open spec fn derived_loss(path: Seq<char>) -> int {
    if crate::text::has_prefix(path, ".brunn/proposals/"@) {
        TWO as int
    } else if crate::text::has_prefix(path, ".brunn/derived/"@) || crate::text::has_prefix(
        path,
        ".brunn/dreams/"@,
    ) {
        ONE as int
    } else {
        0
    }
}

pub fn derived_penalty(path: &str) -> (r: i64)
    ensures
        r == derived_loss(path@),
{
    if crate::text::starts_with(path, ".brunn/proposals/") {
        TWO
    } else if crate::text::starts_with(path, ".brunn/derived/") || crate::text::starts_with(
        path,
        ".brunn/dreams/",
    ) {
        ONE
    } else {
        0
    }
}

/// What a score loses because the entry is superseded.
pub fn supersession_penalty(superseded: bool, enabled: bool, weight: i64) -> (r: i64)
    ensures
        r == if enabled && superseded {
            weight as int
        } else {
            0
        },
{
    if enabled && superseded {
        weight
    } else {
        0
    }
}

// ---------------------------------------------------------------------------
// Sections
// ---------------------------------------------------------------------------

pub open spec fn section_before(a: SectionV, b: SectionV) -> bool {
    a.score > b.score || (a.score == b.score && (text_less(a.heading, b.heading) || (a.heading
        == b.heading && text_less(a.excerpt, b.excerpt))))
}

/// The order of sections: better scores first, then by heading, then by excerpt.
pub open spec fn section_order() -> spec_fn(SectionV, SectionV) -> bool {
    |a: SectionV, b: SectionV| section_before(a, b)
}

pub proof fn lemma_section_order()
    ensures
        is_order(section_order()),
{
    let first = section_order();
    assert forall|a: SectionV, b: SectionV| !(#[trigger] first(a, b) && first(b, a)) by {
        if text_less(a.heading, b.heading) {
            lemma_text_less_asymmetric(a.heading, b.heading);
        }
        if text_less(b.heading, a.heading) {
            lemma_text_less_asymmetric(b.heading, a.heading);
        }
        if text_less(a.excerpt, b.excerpt) {
            lemma_text_less_asymmetric(a.excerpt, b.excerpt);
        }
        lemma_text_less_irreflexive(a.heading);
    }
    assert forall|a: SectionV, b: SectionV, c: SectionV|
        !(#[trigger] first(b, a)) && !(#[trigger] first(c, b)) implies !first(c, a) by {
        lemma_text_not_less_transitive(a.heading, b.heading, c.heading);
        lemma_text_not_less_transitive(a.excerpt, b.excerpt, c.excerpt);
        lemma_text_less_total(a.heading, b.heading);
        lemma_text_less_total(b.heading, c.heading);
        lemma_text_less_total(a.heading, c.heading);
        if text_less(a.heading, b.heading) && text_less(b.heading, c.heading) {
            lemma_text_less_transitive(a.heading, b.heading, c.heading);
        }
        if text_less(a.heading, c.heading) {
            lemma_text_less_asymmetric(a.heading, c.heading);
        }
        lemma_text_less_irreflexive(a.heading);
        lemma_text_less_irreflexive(c.heading);
    }
}

/// A text that is not before one that is not before a third is not before it.
pub proof fn lemma_text_not_less_transitive(a: Seq<char>, b: Seq<char>, c: Seq<char>)
    ensures
        !text_less(b, a) && !text_less(c, b) ==> !text_less(c, a),
        !text_less(b, a) && !text_less(c, b) && a == c ==> a == b,
{
    if !text_less(b, a) && !text_less(c, b) {
        lemma_text_less_total(a, b);
        lemma_text_less_total(b, c);
        if text_less(c, a) {
            if a != b {
                lemma_text_less_transitive(c, a, b);
            }
        }
        if a == c && a != b {
            lemma_text_less_asymmetric(a, b);
        }
    }
}

struct BySection;

impl Order<CandidateSection> for BySection {
    open spec fn first(&self) -> spec_fn(CandidateSection, CandidateSection) -> bool {
        |a: CandidateSection, b: CandidateSection| section_before(a@, b@)
    }

    fn is_first(&self, a: &CandidateSection, b: &CandidateSection) -> (r: bool) {
        a.score > b.score || (a.score == b.score && (before(
            a.heading.as_str(),
            b.heading.as_str(),
        ) || (same(a.heading.as_str(), b.heading.as_str()) && before(
            a.excerpt.as_str(),
            b.excerpt.as_str(),
        ))))
    }
}

pub open spec fn holds_section(v: Seq<SectionV>, s: SectionV) -> bool {
    exists|i: int|
        0 <= i < v.len() && (#[trigger] v[i]).heading == s.heading && v[i].excerpt == s.excerpt
}

/// The sections without those that repeat the heading and excerpt of an earlier one.
pub open spec fn distinct_sections(v: Seq<SectionV>) -> Seq<SectionV>
    decreases v.len(),
{
    if v.len() == 0 {
        v
    } else {
        let front = distinct_sections(v.drop_last());
        if holds_section(front, v.last()) {
            front
        } else {
            front.push(v.last())
        }
    }
}

/// The sections a candidate keeps: the best ones, each once.
pub open spec fn best_sections(v: Seq<SectionV>) -> Seq<SectionV> {
    first_of(distinct_sections(sorted(section_order(), v)), MAX_CANDIDATE_SECTIONS as int)
}

proof fn lemma_distinct_sections(v: Seq<SectionV>)
    requires
        is_sorted(section_order(), v),
    ensures
        is_sorted(section_order(), distinct_sections(v)),
        forall|i: int|
            0 <= i < distinct_sections(v).len() ==> v.contains(#[trigger] distinct_sections(v)[i]),
        forall|i: int, j: int|
            0 <= i < j < distinct_sections(v).len() ==> (#[trigger] distinct_sections(v)[i]).heading
                != (#[trigger] distinct_sections(v)[j]).heading || distinct_sections(v)[i].excerpt
                != distinct_sections(v)[j].excerpt,
    decreases v.len(),
{
    if v.len() > 0 {
        let first = section_order();
        let front = distinct_sections(v.drop_last());
        let d = distinct_sections(v);
        assert forall|i: int, j: int| 0 <= i < j < v.drop_last().len() implies !first(
            #[trigger] v.drop_last()[j],
            #[trigger] v.drop_last()[i],
        ) by {
            assert(v.drop_last()[j] == v[j] && v.drop_last()[i] == v[i]);
        }
        lemma_distinct_sections(v.drop_last());
        assert forall|i: int| 0 <= i < d.len() implies v.contains(#[trigger] d[i]) by {
            if i < front.len() {
                let k = choose|k: int| 0 <= k < v.drop_last().len() && v.drop_last()[k] == front[i];
                assert(v[k] == d[i]);
            } else {
                assert(v[v.len() - 1] == d[i]);
            }
        }
        assert forall|i: int, j: int| 0 <= i < j < d.len() implies !first(
            #[trigger] d[j],
            #[trigger] d[i],
        ) by {
            if j == front.len() {
                let k = choose|k: int| 0 <= k < v.drop_last().len() && v.drop_last()[k] == front[i];
                assert(v[k] == d[i]);
                assert(v[v.len() - 1] == d[j]);
            }
        }
    }
}

/// A candidate keeps a few of its sections, the best ones first and none twice.
pub proof fn lemma_best_sections(v: Seq<SectionV>)
    ensures
        best_sections(v).len() <= MAX_CANDIDATE_SECTIONS,
        is_sorted(section_order(), best_sections(v)),
        forall|i: int|
            0 <= i < best_sections(v).len() ==> v.contains(#[trigger] best_sections(v)[i]),
        forall|i: int, j: int|
            0 <= i < j < best_sections(v).len() ==> (#[trigger] best_sections(v)[i]).heading != (
            #[trigger] best_sections(v)[j]).heading || best_sections(v)[i].excerpt
                != best_sections(v)[j].excerpt,
{
    broadcast use vstd::seq_lib::group_to_multiset_ensures;

    let first = section_order();
    let all = sorted(first, v);
    lemma_section_order();
    lemma_sorted_in_order(first, v);
    lemma_sorted_permutes(first, v);
    lemma_distinct_sections(all);
    let d = distinct_sections(all);
    let b = best_sections(v);
    assert forall|i: int| 0 <= i < b.len() implies v.contains(#[trigger] b[i]) by {
        assert(b[i] == d[i]);
        assert(all.contains(b[i]));
        assert(all.to_multiset().count(b[i]) > 0);
    }
    assert forall|i: int, j: int| 0 <= i < j < b.len() implies !first(
        #[trigger] b[j],
        #[trigger] b[i],
    ) by {
        assert(b[i] == d[i] && b[j] == d[j]);
    }
    assert forall|i: int, j: int| 0 <= i < j < b.len() implies (#[trigger] b[i]).heading != (
    #[trigger] b[j]).heading || b[i].excerpt != b[j].excerpt by {
        assert(b[i] == d[i] && b[j] == d[j]);
    }
}

/// The candidate with its best sections, the first of which it is shown with.
pub open spec fn normalized(c: CandidateV) -> CandidateV {
    let sections = best_sections(c.sections);
    if sections.len() == 0 {
        CandidateV { sections, ..c }
    } else {
        CandidateV { sections, heading: sections[0].heading, excerpt: sections[0].excerpt, ..c }
    }
}

fn has_section(list: &Vec<CandidateSection>, s: &CandidateSection) -> (r: bool)
    ensures
        r == holds_section(sections_view(list@), s@),
{
    let mut i: usize = 0;
    while i < list.len()
        invariant
            i <= list@.len(),
            forall|k: int|
                0 <= k < i ==> !((#[trigger] sections_view(list@)[k]).heading == s@.heading
                    && sections_view(list@)[k].excerpt == s@.excerpt),
        decreases list@.len() - i,
    {
        if same(list[i].heading.as_str(), s.heading.as_str()) && same(
            list[i].excerpt.as_str(),
            s.excerpt.as_str(),
        ) {
            assert(sections_view(list@)[i as int] == list@[i as int]@);
            return true;
        }
        assert(sections_view(list@)[i as int] == list@[i as int]@);
        i = i + 1;
    }
    false
}

/// The best sections of a list.
fn keep_best_sections(sections: Vec<CandidateSection>) -> (r: Vec<CandidateSection>)
    ensures
        sections_view(r@) == best_sections(sections_view(sections@)),
{
    let ghost f = |s: CandidateSection| s@;
    let ghost given = sections@;
    let ranked = sort(&BySection, sections);
    proof {
        lemma_sorted_map(BySection.first(), section_order(), f, given);
    }
    let ghost all = sections_view(ranked@);
    let mut out: Vec<CandidateSection> = Vec::new();
    let mut i: usize = 0;
    assert(all.take(0) =~= Seq::<SectionV>::empty());
    assert(sections_view(out@) =~= distinct_sections(all.take(0)));
    while i < ranked.len()
        invariant
            i <= ranked@.len(),
            all == sections_view(ranked@),
            f == (|s: CandidateSection| s@),
            sections_view(out@) == distinct_sections(all.take(i as int)),
        decreases ranked@.len() - i,
    {
        let ghost held = out@;
        proof {
            assert(all.take(i + 1).drop_last() =~= all.take(i as int));
            assert(all.take(i + 1).last() == ranked@[i as int]@);
        }
        if !has_section(&out, &ranked[i]) {
            let s = ranked[i].copy();
            out.push(s);
            proof {
                lemma_map_push(held, f, s);
            }
        }
        i = i + 1;
    }
    assert(all.take(i as int) =~= all);
    let ghost full = sections_view(out@);
    out.truncate(MAX_CANDIDATE_SECTIONS);
    assert(sections_view(out@) =~= first_of(full, MAX_CANDIDATE_SECTIONS as int));
    out
}

/// Keeps the best sections of a candidate and shows it with the first of them.
pub fn normalize_candidate_sections(candidate: &mut Candidate)
    ensures
        final(candidate)@ == normalized(old(candidate)@),
{
    let mut sections: Vec<CandidateSection> = Vec::new();
    std::mem::swap(&mut candidate.sections, &mut sections);
    let kept = keep_best_sections(sections);
    if kept.len() > 0 {
        assert(sections_view(kept@)[0] == kept@[0]@);
        candidate.heading = kept[0].heading.clone();
        candidate.excerpt = kept[0].excerpt.clone();
    }
    candidate.sections = kept;
}

// ---------------------------------------------------------------------------
// Merging
// ---------------------------------------------------------------------------

/// The lanes with those of another list that are not among them.
pub open spec fn with_lanes(lanes: Seq<Seq<char>>, more: Seq<Seq<char>>) -> Seq<Seq<char>>
    decreases more.len(),
{
    if more.len() == 0 {
        lanes
    } else {
        let front = with_lanes(lanes, more.drop_last());
        if front.contains(more.last()) {
            front
        } else {
            front.push(more.last())
        }
    }
}

pub open spec fn match_order() -> spec_fn(MatchV, MatchV) -> bool {
    |a: MatchV, b: MatchV| a.line_no < b.line_no
}

pub open spec fn same_place(a: MatchV, b: MatchV) -> bool {
    a.line_no == b.line_no && a.byte_start == b.byte_start && a.byte_end == b.byte_end
}

/// The matches without those at the place of the match kept before them.
pub open spec fn without_repeats(v: Seq<MatchV>) -> Seq<MatchV>
    decreases v.len(),
{
    if v.len() == 0 {
        v
    } else {
        let front = without_repeats(v.drop_last());
        if front.len() > 0 && same_place(front.last(), v.last()) {
            front
        } else {
            front.push(v.last())
        }
    }
}

/// The matches a candidate keeps: the first lines, each place once.
pub open spec fn first_matches(v: Seq<MatchV>) -> Seq<MatchV> {
    first_of(
        without_repeats(sorted(match_order(), v)),
        MAX_VERBATIM_MATCHES_PER_CANDIDATE as int,
    )
}

pub open spec fn adds_lane(lanes: Seq<Seq<char>>, more: Seq<Seq<char>>) -> bool {
    exists|i: int| 0 <= i < more.len() && !lanes.contains(#[trigger] more[i])
}

/// Two finds of one entry as one: the better score, raised where the second comes
/// from a new lane; the best sections and the first matches of both; all lanes.
pub open spec fn united(a: CandidateV, b: CandidateV) -> CandidateV {
    let best = greater(a.score, b.score);
    CandidateV {
        score: if adds_lane(a.lanes, b.lanes) {
            plus(best, LANE_BONUS as int)
        } else {
            best
        },
        lanes: with_lanes(a.lanes, b.lanes),
        verbatim_matches: first_matches(a.verbatim_matches + b.verbatim_matches),
        ..normalized(CandidateV { sections: a.sections + b.sections, ..a })
    }
}

/// The first position, from `i` on, of a candidate of the entry.
pub open spec fn position_of(v: Seq<CandidateV>, id: u128, i: int) -> int
    decreases v.len() - i,
{
    if i < 0 || i >= v.len() {
        v.len() as int
    } else if v[i].entry_id == id {
        i
    } else {
        position_of(v, id, i + 1)
    }
}

/// The candidates with one more find put to its entry.
pub open spec fn merged_with(v: Seq<CandidateV>, c: CandidateV) -> Seq<CandidateV> {
    let at = position_of(v, c.entry_id, 0);
    if at < v.len() {
        v.update(at, united(v[at], normalized(c)))
    } else {
        v.push(normalized(c))
    }
}

/// The candidates with several more finds put to their entries, one after another.
pub open spec fn merged_all(v: Seq<CandidateV>, more: Seq<CandidateV>) -> Seq<CandidateV>
    decreases more.len(),
{
    if more.len() == 0 {
        v
    } else {
        merged_with(merged_all(v, more.drop_last()), more.last())
    }
}

struct ByLine;

impl Order<VerbatimMatch> for ByLine {
    open spec fn first(&self) -> spec_fn(VerbatimMatch, VerbatimMatch) -> bool {
        |a: VerbatimMatch, b: VerbatimMatch| a.line_no < b.line_no
    }

    fn is_first(&self, a: &VerbatimMatch, b: &VerbatimMatch) -> (r: bool) {
        a.line_no < b.line_no
    }
}

fn keep_first_matches(matches: Vec<VerbatimMatch>) -> (r: Vec<VerbatimMatch>)
    ensures
        matches_view(r@) == first_matches(matches_view(matches@)),
{
    let ghost f = |m: VerbatimMatch| m@;
    let ghost given = matches@;
    let ranked = sort(&ByLine, matches);
    proof {
        lemma_sorted_map(ByLine.first(), match_order(), f, given);
    }
    let ghost all = matches_view(ranked@);
    let mut out: Vec<VerbatimMatch> = Vec::new();
    let mut i: usize = 0;
    assert(all.take(0) =~= Seq::<MatchV>::empty());
    assert(matches_view(out@) =~= without_repeats(all.take(0)));
    while i < ranked.len()
        invariant
            i <= ranked@.len(),
            all == matches_view(ranked@),
            f == (|m: VerbatimMatch| m@),
            matches_view(out@) == without_repeats(all.take(i as int)),
        decreases ranked@.len() - i,
    {
        let ghost held = out@;
        proof {
            assert(all.take(i + 1).drop_last() =~= all.take(i as int));
            assert(all.take(i + 1).last() == ranked@[i as int]@);
        }
        let n: usize = out.len();
        let repeated = n > 0 && out[n - 1].line_no == ranked[i].line_no && out[n - 1].byte_start
            == ranked[i].byte_start && out[n - 1].byte_end == ranked[i].byte_end;
        proof {
            if n > 0 {
                assert(matches_view(held).last() == held[n - 1]@);
            }
        }
        if !repeated {
            let m = ranked[i].copy();
            out.push(m);
            proof {
                lemma_map_push(held, f, m);
            }
        }
        i = i + 1;
    }
    assert(all.take(i as int) =~= all);
    let ghost full = matches_view(out@);
    out.truncate(MAX_VERBATIM_MATCHES_PER_CANDIDATE);
    assert(matches_view(out@) =~= first_of(full, MAX_VERBATIM_MATCHES_PER_CANDIDATE as int));
    out
}

/// Whether the text is in the list.
pub fn has_text(list: &Vec<String>, text: &str) -> (r: bool)
    ensures
        r == texts(list@).contains(text@),
{
    let mut i: usize = 0;
    while i < list.len()
        invariant
            i <= list@.len(),
            forall|k: int| 0 <= k < i ==> #[trigger] texts(list@)[k] != text@,
        decreases list@.len() - i,
    {
        if same(list[i].as_str(), text) {
            assert(texts(list@)[i as int] == text@);
            return true;
        }
        i = i + 1;
    }
    false
}

fn any_new_lane(lanes: &Vec<String>, more: &Vec<String>) -> (r: bool)
    ensures
        r == adds_lane(texts(lanes@), texts(more@)),
{
    let mut i: usize = 0;
    while i < more.len()
        invariant
            i <= more@.len(),
            forall|k: int| 0 <= k < i ==> texts(lanes@).contains(#[trigger] texts(more@)[k]),
        decreases more@.len() - i,
    {
        assert(texts(more@)[i as int] == more@[i as int]@);
        if !has_text(lanes, more[i].as_str()) {
            return true;
        }
        i = i + 1;
    }
    false
}

fn unite_lanes(lanes: Vec<String>, more: &Vec<String>) -> (r: Vec<String>)
    ensures
        texts(r@) == with_lanes(texts(lanes@), texts(more@)),
{
    let ghost given = texts(lanes@);
    let ghost all = texts(more@);
    let mut out = lanes;
    let mut i: usize = 0;
    assert(all.take(0) =~= Seq::<Seq<char>>::empty());
    while i < more.len()
        invariant
            i <= more@.len(),
            all == texts(more@),
            texts(out@) == with_lanes(given, all.take(i as int)),
        decreases more@.len() - i,
    {
        let ghost held = out@;
        proof {
            assert(all.take(i + 1).drop_last() =~= all.take(i as int));
            assert(all.take(i + 1).last() == more@[i as int]@);
        }
        if !has_text(&out, more[i].as_str()) {
            let t = more[i].clone();
            out.push(t);
            proof {
                lemma_texts_push(held, t);
            }
        }
        i = i + 1;
    }
    assert(all.take(i as int) =~= all);
    out
}

/// Two finds of one entry as one; the second has its best sections.
fn unite(existing: Candidate, candidate: Candidate) -> (r: Candidate)
    ensures
        r@ == united(existing@, candidate@),
{
    let adds = any_new_lane(&existing.lanes, &candidate.lanes);
    let best: i64 = greater_score(existing.score, candidate.score);
    let score: i64 = if adds {
        add_scores(best, LANE_BONUS)
    } else {
        best
    };
    let ghost a = existing@;
    let ghost b = candidate@;
    let mut candidate = candidate;
    let mut existing = existing;
    let mut sections: Vec<CandidateSection> = Vec::new();
    std::mem::swap(&mut candidate.sections, &mut sections);
    let ghost more = sections@;
    let ghost own = existing.sections@;
    existing.sections.append(&mut sections);
    proof {
        assert(sections_view(own + more) =~= sections_view(own) + sections_view(more));
        assert(existing@ =~= CandidateV { sections: a.sections + b.sections, ..a });
    }
    normalize_candidate_sections(&mut existing);
    let mut matches: Vec<VerbatimMatch> = Vec::new();
    std::mem::swap(&mut existing.verbatim_matches, &mut matches);
    let mut more_matches: Vec<VerbatimMatch> = Vec::new();
    std::mem::swap(&mut candidate.verbatim_matches, &mut more_matches);
    let ghost m0 = matches@;
    let ghost m1 = more_matches@;
    matches.append(&mut more_matches);
    assert(matches_view(m0 + m1) =~= matches_view(m0) + matches_view(m1));
    let kept = keep_first_matches(matches);
    let mut lanes: Vec<String> = Vec::new();
    std::mem::swap(&mut existing.lanes, &mut lanes);
    let all_lanes = unite_lanes(lanes, &candidate.lanes);
    existing.score = score;
    existing.lanes = all_lanes;
    existing.verbatim_matches = kept;
    existing
}

/// Puts a find to its entry among the candidates, of which each is of another entry.
pub fn merge_candidate(merged: &mut Vec<Candidate>, candidate: Candidate)
    ensures
        candidates_view(final(merged)@) == merged_with(candidates_view(old(merged)@), candidate@),
{
    let ghost v = candidates_view(merged@);
    let mut candidate = candidate;
    let ghost given = candidate@;
    normalize_candidate_sections(&mut candidate);
    let mut at: usize = 0;
    while at < merged.len() && merged[at].entry_id != candidate.entry_id
        invariant
            at <= merged@.len(),
            merged@ == old(merged)@,
            v == candidates_view(merged@),
            candidate@.entry_id == given.entry_id,
            position_of(v, given.entry_id, 0) == position_of(v, given.entry_id, at as int),
        decreases merged@.len() - at,
    {
        assert(v[at as int] == merged@[at as int]@);
        at = at + 1;
    }
    if at < merged.len() {
        assert(v[at as int] == merged@[at as int]@);
        let existing = merged.remove(at);
        let one = unite(existing, candidate);
        merged.insert(at, one);
        assert(candidates_view(merged@) =~= merged_with(v, given));
    } else {
        merged.push(candidate);
        assert(candidates_view(merged@) =~= merged_with(v, given));
    }
}

/// Puts several finds to their entries, one after another.
pub fn merge_candidates(merged: &mut Vec<Candidate>, candidates: Vec<Candidate>)
    ensures
        candidates_view(final(merged)@) == merged_all(
            candidates_view(old(merged)@),
            candidates_view(candidates@),
        ),
{
    let ghost v = candidates_view(merged@);
    let ghost all = candidates_view(candidates@);
    let mut i: usize = 0;
    assert(all.take(0) =~= Seq::<CandidateV>::empty());
    while i < candidates.len()
        invariant
            i <= candidates@.len(),
            all == candidates_view(candidates@),
            candidates_view(merged@) == merged_all(v, all.take(i as int)),
        decreases candidates@.len() - i,
    {
        proof {
            assert(all.take(i + 1).drop_last() =~= all.take(i as int));
            assert(all.take(i + 1).last() == candidates@[i as int]@);
        }
        merge_candidate(merged, candidates[i].copy());
        i = i + 1;
    }
    assert(all.take(i as int) =~= all);
}

pub open spec fn distinct_entries(v: Seq<CandidateV>) -> bool {
    forall|i: int, j: int|
        0 <= i < j < v.len() ==> (#[trigger] v[i]).entry_id != (#[trigger] v[j]).entry_id
}

pub proof fn lemma_position_of(v: Seq<CandidateV>, id: u128, i: int)
    requires
        0 <= i <= v.len(),
    ensures
        i <= position_of(v, id, i) <= v.len(),
        position_of(v, id, i) < v.len() ==> v[position_of(v, id, i)].entry_id == id,
        forall|k: int| i <= k < position_of(v, id, i) ==> (#[trigger] v[k]).entry_id != id,
    decreases v.len() - i,
{
    if i < v.len() && v[i].entry_id != id {
        lemma_position_of(v, id, i + 1);
    }
}

/// Merging never shows an entry twice, drops no entry, and leaves every other entry
/// as it was.
pub proof fn lemma_merge_keeps_entries(v: Seq<CandidateV>, c: CandidateV)
    requires
        distinct_entries(v),
    ensures
        distinct_entries(merged_with(v, c)),
        v.len() <= merged_with(v, c).len() <= v.len() + 1,
        forall|i: int|
            0 <= i < v.len() && (#[trigger] v[i]).entry_id != c.entry_id ==> merged_with(v, c)[i]
                == v[i],
        forall|i: int|
            0 <= i < v.len() ==> merged_with(v, c)[i].entry_id == (#[trigger] v[i]).entry_id,
        exists|i: int|
            0 <= i < merged_with(v, c).len() && (#[trigger] merged_with(v, c)[i]).entry_id
                == c.entry_id,
{
    lemma_position_of(v, c.entry_id, 0);
    let at = position_of(v, c.entry_id, 0);
    let m = merged_with(v, c);
    if at < v.len() {
        assert(m[at].entry_id == c.entry_id);
        assert forall|i: int, j: int| 0 <= i < j < m.len() implies (#[trigger] m[i]).entry_id != (
        #[trigger] m[j]).entry_id by {
            assert(m[i].entry_id == v[i].entry_id);
            assert(m[j].entry_id == v[j].entry_id);
        }
    } else {
        assert(m[v.len() as int].entry_id == c.entry_id);
    }
}

/// A find never lowers the score of its entry, and never takes a lane away.
pub proof fn lemma_merge_keeps_score_and_lanes(a: CandidateV, b: CandidateV)
    requires
        is_code(a.score),
        is_code(b.score),
    ensures
        united(a, b).score >= a.score,
        united(a, b).score >= b.score,
        forall|lane: Seq<char>|
            a.lanes.contains(lane) || b.lanes.contains(lane) <==> #[trigger] united(
                a,
                b,
            ).lanes.contains(lane),
{
    lemma_sum_is_at_least(a.score, LANE_BONUS as int);
    lemma_sum_is_at_least(b.score, LANE_BONUS as int);
    assert forall|lane: Seq<char>|
        a.lanes.contains(lane) || b.lanes.contains(lane) <==> #[trigger] united(
            a,
            b,
        ).lanes.contains(lane) by {
        lemma_with_lanes(a.lanes, b.lanes, lane);
    }
}

/// The lanes of both lists, and no others.
pub proof fn lemma_with_lanes(lanes: Seq<Seq<char>>, more: Seq<Seq<char>>, lane: Seq<char>)
    ensures
        with_lanes(lanes, more).contains(lane) <==> lanes.contains(lane) || more.contains(lane),
    decreases more.len(),
{
    if more.len() > 0 {
        lemma_with_lanes(lanes, more.drop_last(), lane);
        crate::seqs::lemma_push_contains(more.drop_last(), more.last(), lane);
        assert(more =~= more.drop_last().push(more.last()));
        crate::seqs::lemma_push_contains(
            with_lanes(lanes, more.drop_last()),
            more.last(),
            lane,
        );
    }
}

// ---------------------------------------------------------------------------
// Order
// ---------------------------------------------------------------------------

/// By what the candidates of a search are ordered.
#[derive(Clone, Copy, Debug, PartialEq, Eq, Structural)]
pub enum SearchSort {
    BestMatch,
    LastModified,
    Title,
}

/// The sort order that a word of a request stands for.
pub open spec fn sort_named(value: Option<Seq<char>>) -> Option<SearchSort> {
    match value {
        None => Some(SearchSort::BestMatch),
        Some(t) => if t == "best_match"@ {
            Some(SearchSort::BestMatch)
        } else if t == "last_modified"@ {
            Some(SearchSort::LastModified)
        } else if t == "title"@ {
            Some(SearchSort::Title)
        } else {
            None
        },
    }
}

pub open spec fn option_view(t: Option<String>) -> Option<Seq<char>> {
    match t {
        Some(t) => Some(t@),
        None => None,
    }
}

impl SearchSort {
    pub fn parse(value: &Option<String>) -> (r: Result<SearchSort, ApiError>)
        ensures
            match r {
                Ok(sort) => sort_named(option_view(*value)) == Some(sort),
                Err(e) => sort_named(option_view(*value)) is None && e@ == ApiErrorV::Invalid(
                    "search sort must be best_match, last_modified, or title"@,
                ),
            },
    {
        match value {
            None => Ok(SearchSort::BestMatch),
            Some(t) => if same(t.as_str(), "best_match") {
                Ok(SearchSort::BestMatch)
            } else if same(t.as_str(), "last_modified") {
                Ok(SearchSort::LastModified)
            } else if same(t.as_str(), "title") {
                Ok(SearchSort::Title)
            } else {
                Err(ApiError::invalid("search sort must be best_match, last_modified, or title"))
            },
        }
    }

    /// The word for the order.
    pub fn as_str(self) -> (r: &'static str)
        ensures
            sort_named(Some(r@)) == Some(self),
            r@ == (match self {
                SearchSort::BestMatch => "best_match"@,
                SearchSort::LastModified => "last_modified"@,
                SearchSort::Title => "title"@,
            }),
    {
        proof {
            reveal_strlit("best_match");
            reveal_strlit("last_modified");
            reveal_strlit("title");
            assert("best_match"@.len() == 10);
            assert("last_modified"@.len() == 13);
            assert("title"@.len() == 5);
        }
        match self {
            SearchSort::BestMatch => "best_match",
            SearchSort::LastModified => "last_modified",
            SearchSort::Title => "title",
        }
    }
}

/// Whether a candidate must stand before another: the first difference in what the
/// sort order names counts, and in the end the path.
pub open spec fn candidate_before(sort: SearchSort, a: CandidateV, b: CandidateV) -> bool {
    let by_path = text_less(a.path, b.path);
    match sort {
        SearchSort::BestMatch => a.score > b.score || (a.score == b.score && (a.updated_at
            > b.updated_at || (a.updated_at == b.updated_at && by_path))),
        SearchSort::LastModified => a.updated_at > b.updated_at || (a.updated_at == b.updated_at
            && (a.score > b.score || (a.score == b.score && by_path))),
        SearchSort::Title => {
            let x = lower_case(a.title);
            let y = lower_case(b.title);
            text_less(x, y) || (x == y && (a.updated_at > b.updated_at || (a.updated_at
                == b.updated_at && by_path)))
        },
    }
}

pub open spec fn candidate_order(sort: SearchSort) -> spec_fn(CandidateV, CandidateV) -> bool {
    |a: CandidateV, b: CandidateV| candidate_before(sort, a, b)
}

pub proof fn lemma_candidate_order(sort: SearchSort)
    ensures
        is_order(candidate_order(sort)),
{
    let first = candidate_order(sort);
    assert forall|a: CandidateV, b: CandidateV| !(#[trigger] first(a, b) && first(b, a)) by {
        let x = lower_case(a.title);
        let y = lower_case(b.title);
        if text_less(a.path, b.path) {
            lemma_text_less_asymmetric(a.path, b.path);
        }
        if text_less(x, y) {
            lemma_text_less_asymmetric(x, y);
        }
        if text_less(y, x) {
            lemma_text_less_asymmetric(y, x);
        }
        lemma_text_less_irreflexive(x);
    }
    assert forall|a: CandidateV, b: CandidateV, c: CandidateV|
        !(#[trigger] first(b, a)) && !(#[trigger] first(c, b)) implies !first(c, a) by {
        let x = lower_case(a.title);
        let y = lower_case(b.title);
        let z = lower_case(c.title);
        lemma_text_not_less_transitive(a.path, b.path, c.path);
        lemma_text_not_less_transitive(x, y, z);
        lemma_text_less_total(x, y);
        lemma_text_less_total(y, z);
        lemma_text_less_total(x, z);
        if text_less(x, y) && text_less(y, z) {
            lemma_text_less_transitive(x, y, z);
        }
        if text_less(x, z) {
            lemma_text_less_asymmetric(x, z);
        }
        lemma_text_less_irreflexive(x);
        lemma_text_less_irreflexive(z);
    }
}

impl Order<Candidate> for SearchSort {
    open spec fn first(&self) -> spec_fn(Candidate, Candidate) -> bool {
        |a: Candidate, b: Candidate| candidate_before(*self, a@, b@)
    }

    fn is_first(&self, a: &Candidate, b: &Candidate) -> (r: bool) {
        match self {
            SearchSort::BestMatch => a.score > b.score || (a.score == b.score && (a.updated_at
                > b.updated_at || (a.updated_at == b.updated_at && before(
                a.path.as_str(),
                b.path.as_str(),
            )))),
            SearchSort::LastModified => a.updated_at > b.updated_at || (a.updated_at
                == b.updated_at && (a.score > b.score || (a.score == b.score && before(
                a.path.as_str(),
                b.path.as_str(),
            )))),
            SearchSort::Title => {
                let x = lower(a.title.as_str());
                let y = lower(b.title.as_str());
                before(x.as_str(), y.as_str()) || (same(x.as_str(), y.as_str()) && (a.updated_at
                    > b.updated_at || (a.updated_at == b.updated_at && before(
                    a.path.as_str(),
                    b.path.as_str(),
                ))))
            },
        }
    }
}

/// Brings the candidates in order.
pub fn sort_candidates(candidates: &mut Vec<Candidate>, order: SearchSort)
    ensures
        candidates_view(final(candidates)@) == sorted(
            candidate_order(order),
            candidates_view(old(candidates)@),
        ),
{
    let mut all: Vec<Candidate> = Vec::new();
    std::mem::swap(candidates, &mut all);
    let ghost given = all@;
    let ranked = sort(&order, all);
    proof {
        lemma_sorted_map(order.first(), candidate_order(order), |c: Candidate| c@, given);
    }
    *candidates = ranked;
}

/// Sorting keeps exactly the candidates there were, and each stands behind none that
/// it must stand before.
pub proof fn lemma_sort_candidates(v: Seq<CandidateV>, order: SearchSort)
    ensures
        sorted(candidate_order(order), v).to_multiset() == v.to_multiset(),
        is_sorted(candidate_order(order), sorted(candidate_order(order), v)),
{
    lemma_candidate_order(order);
    lemma_sorted_permutes(candidate_order(order), v);
    lemma_sorted_in_order(candidate_order(order), v);
}

}
