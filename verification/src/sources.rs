//! The sources of a checkpoint: those that a request names, and those that its state
//! mentions.
use vstd::prelude::*;

use crate::checkpoint::is_outside_ref;
#[allow(unused_imports)]
use crate::checkpoint::outside_ref;
use crate::error::ApiError;
#[allow(unused_imports)]
use crate::error::{refusal, ApiErrorV};
use crate::json::Json;
#[allow(unused_imports)]
use crate::json::{text_leaves, JsonV};
use crate::lexical::{looks_like_path, path_hints, put_ascending};
#[allow(unused_imports)]
use crate::lexical::{hints_of, least_distinct, reads_as_path, strictly_ascending};
use crate::outside::uuid_parse;
#[allow(unused_imports)]
use crate::outside::uuid_value;
use crate::paths::{is_managed, portable_path_key};
#[allow(unused_imports)]
use crate::paths::{managed, path_key};
use crate::read::EntryRow;
#[allow(unused_imports)]
use crate::seqs::{
    first_of, lemma_filter_empty, lemma_filter_take, lemma_push_contains, lemma_texts_push,
};
use crate::text::{same, strip_prefix};
#[allow(unused_imports)]
use crate::text::{behind, text_less, texts};

verus! {

/// How many sources a checkpoint has, and how many its state may mention.
pub const MAX_CHECKPOINT_SOURCES: usize = 64;

// ---------------------------------------------------------------------------
// The paths that a state mentions
// ---------------------------------------------------------------------------

/// The paths that a text names: itself, where it is one, and those that it has in it.
pub open spec fn paths_of(text: Seq<char>) -> Seq<Seq<char>> {
    (if reads_as_path(text) {
        seq![text]
    } else {
        Seq::empty()
    }) + hints_of(text)
}

/// The paths that texts name, text by text.
pub open spec fn paths_of_all(v: Seq<Seq<char>>) -> Seq<Seq<char>>
    decreases v.len(),
{
    if v.len() == 0 {
        Seq::empty()
    } else {
        paths_of_all(v.drop_last()) + paths_of(v.last())
    }
}

/// The paths that a value mentions, in the order of its texts.
pub open spec fn mentioned_paths(value: JsonV) -> Seq<Seq<char>> {
    paths_of_all(text_leaves(value))
}

/// Adds the paths that a value mentions to a list, in the order of its texts.
pub fn collect_markdown_paths(value: &Json, output: &mut Vec<String>)
    ensures
        texts(final(output)@) == texts(old(output)@) + mentioned_paths(value@),
{
    let mut leaves: Vec<String> = Vec::new();
    value.collect_texts(&mut leaves);
    let ghost all = texts(leaves@);
    assert(all =~= text_leaves(value@));
    let ghost start = texts(output@);
    let mut i: usize = 0;
    assert(all.take(0) =~= Seq::<Seq<char>>::empty());
    assert(texts(output@) =~= start + paths_of_all(all.take(0)));
    while i < leaves.len()
        invariant
            i <= leaves@.len(),
            all == texts(leaves@),
            texts(output@) == start + paths_of_all(all.take(i as int)),
        decreases leaves@.len() - i,
    {
        let leaf = leaves[i].clone();
        proof {
            assert(all.take(i + 1).drop_last() =~= all.take(i as int));
            assert(all.take(i + 1).last() == leaf@);
        }
        let mut hints = path_hints(leaf.as_str());
        let ghost found = hints@;
        if looks_like_path(leaf.as_str()) {
            let ghost held = output@;
            output.push(leaf);
            proof {
                lemma_texts_push(held, leaf);
            }
        }
        let ghost middle = output@;
        output.append(&mut hints);
        proof {
            assert(texts(output@) =~= texts(middle) + texts(found));
            assert(texts(output@) =~= start + paths_of_all(all.take(i + 1)));
        }
        i = i + 1;
    }
    assert(all.take(i as int) =~= all);
}

/// The least paths that a state mentions, each once, in ascending order.
pub open spec fn inferred_from(v: Seq<Seq<char>>, state: JsonV) -> bool {
    least_distinct(v, mentioned_paths(state), MAX_CHECKPOINT_SOURCES as int)
}

fn infer_paths(state: &Json) -> (r: Vec<String>)
    ensures
        inferred_from(texts(r@), state@),
{
    let mut mentioned: Vec<String> = Vec::new();
    collect_markdown_paths(state, &mut mentioned);
    let ghost all = texts(mentioned@);
    assert(all =~= mentioned_paths(state@));
    let mut list: Vec<String> = Vec::new();
    let mut i: usize = 0;
    while i < mentioned.len()
        invariant
            i <= mentioned@.len(),
            all == texts(mentioned@),
            strictly_ascending(texts(list@)),
            forall|p: Seq<char>| #[trigger]
                texts(list@).contains(p) <==> all.take(i as int).contains(p),
        decreases mentioned@.len() - i,
    {
        let ghost held = texts(list@);
        put_ascending(&mut list, mentioned[i].clone());
        proof {
            assert(all.take(i + 1) =~= all.take(i as int).push(all[i as int]));
            assert forall|p: Seq<char>| #[trigger]
                texts(list@).contains(p) <==> all.take(i + 1).contains(p) by {
                lemma_push_contains(all.take(i as int), all[i as int], p);
                assert(held.contains(p) <==> all.take(i as int).contains(p));
            }
        }
        i = i + 1;
    }
    assert(all.take(i as int) =~= all);
    let ghost full = texts(list@);
    list.truncate(MAX_CHECKPOINT_SOURCES);
    proof {
        let v = texts(list@);
        assert(v =~= full.take(v.len() as int));
        assert forall|p: Seq<char>| #[trigger] all.contains(p) implies v.contains(p) || (v.len()
            == MAX_CHECKPOINT_SOURCES && text_less(v[MAX_CHECKPOINT_SOURCES - 1], p)) by {
            assert(full.contains(p));
            let k = choose|k: int| 0 <= k < full.len() && full[k] == p;
            if k < v.len() {
                assert(v[k] == p);
            } else {
                assert(full[MAX_CHECKPOINT_SOURCES - 1] == v[MAX_CHECKPOINT_SOURCES - 1]);
            }
        }
        assert forall|i: int| 0 <= i < v.len() implies all.contains(#[trigger] v[i]) by {
            assert(full[i] == v[i]);
            assert(full.contains(v[i]));
        }
    }
    list
}

// ---------------------------------------------------------------------------
// What is looked for
// ---------------------------------------------------------------------------

/// A source that a request names.
#[derive(Clone, Debug)]
pub struct SourceRef {
    pub text: String,
    pub entry_id: Option<u128>,
}

pub struct SourceRefV {
    pub text: Seq<char>,
    pub entry_id: Option<u128>,
}

impl View for SourceRef {
    type V = SourceRefV;

    open spec fn view(&self) -> SourceRefV {
        SourceRefV { text: self.text@, entry_id: self.entry_id }
    }
}

pub open spec fn refs_view(refs: Seq<SourceRef>) -> Seq<SourceRefV> {
    Seq::new(refs.len(), |i: int| refs[i]@)
}

/// A source by its reference: `entry:` and an identity, or a path.
pub open spec fn source_ref(reference: Seq<char>) -> Option<SourceRefV> {
    match behind(reference, "entry:"@) {
        Some(id) => match uuid_value(id) {
            Some(id) => Some(SourceRefV { text: reference, entry_id: Some(id) }),
            None => None,
        },
        None => Some(SourceRefV { text: reference, entry_id: None }),
    }
}

/// The sources inside the workspace that a request names; nothing where one of them
/// cannot be read.
pub open spec fn named_sources(refs: Seq<Seq<char>>) -> Option<Seq<SourceRefV>>
    decreases refs.len(),
{
    if refs.len() == 0 {
        Some(Seq::empty())
    } else {
        match named_sources(refs.drop_last()) {
            None => None,
            Some(front) => if outside_ref(refs.last()) {
                Some(front)
            } else {
                match source_ref(refs.last()) {
                    Some(source) => Some(front.push(source)),
                    None => None,
                }
            },
        }
    }
}

/// What is looked for: the sources that the request names, those that the state
/// mentions, and the paths among them, by themselves and by their keys.
#[derive(Debug)]
pub struct SourcePlan {
    pub explicit: Vec<SourceRef>,
    pub inferred: Vec<String>,
    pub paths: Vec<String>,
    pub keys: Vec<String>,
}

/// Whether a request names an entry by its identity.
pub open spec fn named_id(sources: Seq<SourceRefV>, id: u128) -> bool {
    exists|i: int| 0 <= i < sources.len() && (#[trigger] sources[i]).entry_id == Some(id)
}

pub open spec fn ids_ascend(ids: Seq<u128>) -> bool {
    forall|i: int, j: int| 0 <= i < j < ids.len() ==> #[trigger] ids[i] < #[trigger] ids[j]
}

fn put_id(list: &mut Vec<u128>, id: u128)
    requires
        ids_ascend(old(list)@),
    ensures
        ids_ascend(final(list)@),
        forall|x: u128| #[trigger]
            final(list)@.contains(x) <==> x == id || old(list)@.contains(x),
{
    let ghost all = list@;
    let mut at: usize = 0;
    while at < list.len() && list[at] < id
        invariant
            at <= list@.len(),
            list@ == all,
            forall|i: int| 0 <= i < at ==> #[trigger] all[i] < id,
        decreases list@.len() - at,
    {
        at = at + 1;
    }
    if at < list.len() && list[at] == id {
        assert(all[at as int] == id);
        return ;
    }
    list.insert(at, id);
    proof {
        let new = list@;
        assert forall|x: u128| #[trigger] new.contains(x) <==> x == id || all.contains(x) by {
            if new.contains(x) && x != id {
                let k = choose|k: int| 0 <= k < new.len() && new[k] == x;
                assert(all[if k < at { k } else { k - 1 }] == x);
            }
            if all.contains(x) {
                let k = choose|k: int| 0 <= k < all.len() && all[k] == x;
                assert(new[if k < at { k } else { k + 1 }] == x);
            }
            assert(new[at as int] == id);
        }
        assert forall|i: int, j: int| 0 <= i < j < new.len() implies #[trigger] new[i]
            < #[trigger] new[j] by {
            if i != at {
                assert(new[i] == all[if i < at { i } else { i - 1 }]);
            }
            if j != at {
                assert(new[j] == all[if j < at { j } else { j - 1 }]);
            }
        }
    }
}

/// The identities that sources are looked for under: those that the request names,
/// and those that its paths led to, each once, in order.
pub fn source_ids(plan: &SourcePlan, resolved: &Vec<u128>) -> (r: Vec<u128>)
    ensures
        ids_ascend(r@),
        forall|id: u128| #[trigger]
            r@.contains(id) <==> named_id(refs_view(plan.explicit@), id) || resolved@.contains(id),
{
    let ghost sources = refs_view(plan.explicit@);
    let mut ids: Vec<u128> = Vec::new();
    let mut i: usize = 0;
    while i < plan.explicit.len()
        invariant
            i <= plan.explicit@.len(),
            sources == refs_view(plan.explicit@),
            ids_ascend(ids@),
            forall|id: u128| #[trigger] ids@.contains(id) <==> named_id(sources.take(i as int), id),
        decreases plan.explicit@.len() - i,
    {
        let ghost held = ids@;
        match plan.explicit[i].entry_id {
            Some(id) => put_id(&mut ids, id),
            None => {},
        }
        proof {
            let front = sources.take(i as int);
            let next = sources.take(i + 1);
            assert(next[i as int] == plan.explicit@[i as int]@);
            assert forall|id: u128| #[trigger] ids@.contains(id) <==> named_id(next, id) by {
                assert(held.contains(id) <==> named_id(front, id));
                if named_id(next, id) {
                    let k = choose|k: int|
                        0 <= k < next.len() && (#[trigger] next[k]).entry_id == Some(id);
                    if k < i {
                        assert(front[k].entry_id == Some(id));
                    }
                }
                if named_id(front, id) {
                    let k = choose|k: int|
                        0 <= k < front.len() && (#[trigger] front[k]).entry_id == Some(id);
                    assert(next[k].entry_id == Some(id));
                }
            }
        }
        i = i + 1;
    }
    assert(sources.take(i as int) =~= sources);
    let mut k: usize = 0;
    while k < resolved.len()
        invariant
            k <= resolved@.len(),
            ids_ascend(ids@),
            forall|id: u128| #[trigger]
                ids@.contains(id) <==> named_id(sources, id) || resolved@.take(
                    k as int,
                ).contains(id),
        decreases resolved@.len() - k,
    {
        let ghost held = ids@;
        put_id(&mut ids, resolved[k]);
        proof {
            assert(resolved@.take(k + 1) =~= resolved@.take(k as int).push(resolved@[k as int]));
            assert forall|id: u128| #[trigger]
                ids@.contains(id) <==> named_id(sources, id) || resolved@.take(k + 1).contains(
                    id,
                ) by {
                assert(held.contains(id) <==> named_id(sources, id) || resolved@.take(
                    k as int,
                ).contains(id));
                lemma_push_contains(resolved@.take(k as int), resolved@[k as int], id);
            }
        }
        k = k + 1;
    }
    assert(resolved@.take(k as int) =~= resolved@);
    ids
}

/// Whether a path is among the sources that a request names.
pub open spec fn named_path(sources: Seq<SourceRefV>, path: Seq<char>) -> bool {
    exists|i: int|
        0 <= i < sources.len() && (#[trigger] sources[i]).entry_id is None && sources[i].text == path
}

proof fn lemma_named_prefix(refs: Seq<Seq<char>>, n: int)
    requires
        0 <= n <= refs.len(),
        named_sources(refs.take(n)) is None,
    ensures
        named_sources(refs) is None,
    decreases refs.len() - n,
{
    if n == refs.len() {
        assert(refs.take(n) =~= refs);
    } else {
        assert(refs.take(n + 1).drop_last() =~= refs.take(n));
        lemma_named_prefix(refs, n + 1);
    }
}

fn read_refs(refs: &Vec<String>) -> (r: Option<Vec<SourceRef>>)
    ensures
        match r {
            Some(sources) => named_sources(texts(refs@)) == Some(refs_view(sources@)),
            None => named_sources(texts(refs@)) is None,
        },
{
    let ghost all = texts(refs@);
    let mut out: Vec<SourceRef> = Vec::new();
    let mut i: usize = 0;
    assert(all.take(0) =~= Seq::<Seq<char>>::empty());
    assert(refs_view(out@) =~= Seq::<SourceRefV>::empty());
    while i < refs.len()
        invariant
            i <= refs@.len(),
            all == texts(refs@),
            named_sources(all.take(i as int)) == Some(refs_view(out@)),
        decreases refs@.len() - i,
    {
        proof {
            assert(all.take(i + 1).drop_last() =~= all.take(i as int));
            assert(all.take(i + 1).last() == refs@[i as int]@);
        }
        let ghost held = out@;
        if !is_outside_ref(refs[i].as_str()) {
            let source = match strip_prefix(refs[i].as_str(), "entry:") {
                Some(id) => match uuid_parse(id.as_str()) {
                    Some(id) => SourceRef { text: refs[i].clone(), entry_id: Some(id) },
                    None => {
                        proof {
                            lemma_named_prefix(all, i + 1);
                        }
                        return None;
                    },
                },
                None => SourceRef { text: refs[i].clone(), entry_id: None },
            };
            out.push(source);
            assert(refs_view(out@) =~= refs_view(held).push(source@));
        }
        i = i + 1;
    }
    assert(all.take(i as int) =~= all);
    Some(out)
}

/// What is looked for to pin the sources of a checkpoint.
pub fn plan_sources(state: &Json, source_refs: &Vec<String>) -> (r: Result<SourcePlan, ApiError>)
    ensures
        refusal(r) == if named_sources(texts(source_refs@)) is None {
            Some(
                ApiErrorV::Invalid("checkpoint sources require an exact path or entry ref"@),
            )
        } else {
            None
        },
        r matches Ok(plan) ==> {
            &&& named_sources(texts(source_refs@)) == Some(refs_view(plan.explicit@))
            &&& inferred_from(texts(plan.inferred@), state@)
            &&& strictly_ascending(texts(plan.paths@))
            &&& forall|p: Seq<char>| #[trigger]
                texts(plan.paths@).contains(p) <==> named_path(refs_view(plan.explicit@), p)
                    || texts(plan.inferred@).contains(p)
            &&& texts(plan.keys@) == texts(plan.paths@).filter(
                |p: Seq<char>| !managed(p),
            ).map_values(|p: Seq<char>| path_key(p))
        },
{
    let explicit = match read_refs(source_refs) {
        Some(explicit) => explicit,
        None => {
            return Err(
                ApiError::invalid("checkpoint sources require an exact path or entry ref"),
            );
        },
    };
    let inferred = infer_paths(state);
    let ghost sources = refs_view(explicit@);
    let ghost mentioned = texts(inferred@);
    let mut paths: Vec<String> = Vec::new();
    let mut i: usize = 0;
    while i < explicit.len()
        invariant
            i <= explicit@.len(),
            sources == refs_view(explicit@),
            strictly_ascending(texts(paths@)),
            forall|p: Seq<char>| #[trigger]
                texts(paths@).contains(p) <==> named_path(sources.take(i as int), p),
        decreases explicit@.len() - i,
    {
        let ghost held = texts(paths@);
        let ghost source = sources[i as int];
        if explicit[i].entry_id.is_none() {
            put_ascending(&mut paths, explicit[i].text.clone());
        }
        proof {
            let front = sources.take(i as int);
            let more = sources.take(i + 1);
            assert forall|p: Seq<char>| #[trigger]
                texts(paths@).contains(p) <==> named_path(more, p) by {
                assert(held.contains(p) <==> named_path(front, p));
                if named_path(front, p) {
                    let k = choose|k: int|
                        0 <= k < front.len() && (#[trigger] front[k]).entry_id is None
                            && front[k].text == p;
                    assert(more[k].entry_id is None);
                }
                if named_path(more, p) {
                    let k = choose|k: int|
                        0 <= k < more.len() && (#[trigger] more[k]).entry_id is None
                            && more[k].text == p;
                    if k < i {
                        assert(front[k].entry_id is None);
                    }
                }
                if source.entry_id is None && source.text == p {
                    assert(more[i as int].entry_id is None);
                }
            }
        }
        i = i + 1;
    }
    assert(sources.take(i as int) =~= sources);
    let mut k: usize = 0;
    let ghost named = texts(paths@);
    while k < inferred.len()
        invariant
            k <= inferred@.len(),
            mentioned == texts(inferred@),
            strictly_ascending(texts(paths@)),
            forall|p: Seq<char>| #[trigger]
                texts(paths@).contains(p) <==> named.contains(p) || mentioned.take(
                    k as int,
                ).contains(p),
        decreases inferred@.len() - k,
    {
        let ghost held = texts(paths@);
        put_ascending(&mut paths, inferred[k].clone());
        proof {
            assert(mentioned.take(k + 1) =~= mentioned.take(k as int).push(mentioned[k as int]));
            assert forall|p: Seq<char>| #[trigger]
                texts(paths@).contains(p) <==> named.contains(p) || mentioned.take(
                    k + 1,
                ).contains(p) by {
                lemma_push_contains(mentioned.take(k as int), mentioned[k as int], p);
                assert(held.contains(p) <==> named.contains(p) || mentioned.take(
                    k as int,
                ).contains(p));
            }
        }
        k = k + 1;
    }
    assert(mentioned.take(k as int) =~= mentioned);
    let keys = keys_of(&paths);
    Ok(SourcePlan { explicit, inferred, paths, keys })
}

fn keys_of(paths: &Vec<String>) -> (r: Vec<String>)
    ensures
        texts(r@) == texts(paths@).filter(|p: Seq<char>| !managed(p)).map_values(
            |p: Seq<char>| path_key(p),
        ),
{
    let ghost all = texts(paths@);
    let ghost f = |p: Seq<char>| !managed(p);
    let ghost g = |p: Seq<char>| path_key(p);
    let mut out: Vec<String> = Vec::new();
    let mut i: usize = 0;
    proof {
        lemma_filter_empty(all.take(0), f);
        assert(texts(out@) =~= all.take(0).filter(f).map_values(g));
    }
    while i < paths.len()
        invariant
            i <= paths@.len(),
            all == texts(paths@),
            f == (|p: Seq<char>| !managed(p)),
            g == (|p: Seq<char>| path_key(p)),
            texts(out@) == all.take(i as int).filter(f).map_values(g),
        decreases paths@.len() - i,
    {
        proof {
            lemma_filter_take(all, f, i as int);
        }
        let ghost held = out@;
        if !is_managed(paths[i].as_str()) {
            out.push(portable_path_key(paths[i].as_str()));
            proof {
                lemma_texts_push(held, out@[held.len() as int]);
                crate::seqs::lemma_map_push(all.take(i as int).filter(f), g, all[i as int]);
            }
        }
        i = i + 1;
    }
    assert(all.take(i as int) =~= all);
    out
}

// ---------------------------------------------------------------------------
// What was found
// ---------------------------------------------------------------------------

/// The last of the entries with an identity.
pub open spec fn by_id(rows: Seq<EntryRow>, id: u128) -> Option<int>
    decreases rows.len(),
{
    if rows.len() == 0 {
        None
    } else if rows.last().id == id {
        Some(rows.len() - 1)
    } else {
        by_id(rows.drop_last(), id)
    }
}

/// The last of the entries with exactly this path.
pub open spec fn by_path(rows: Seq<EntryRow>, path: Seq<char>) -> Option<int>
    decreases rows.len(),
{
    if rows.len() == 0 {
        None
    } else if rows.last().path@ == path {
        Some(rows.len() - 1)
    } else {
        by_path(rows.drop_last(), path)
    }
}

/// The first of the entries, from one on, whose path has a key.
pub open spec fn by_key(rows: Seq<EntryRow>, key: Seq<char>, from: int) -> Option<int>
    decreases rows.len() - from,
{
    if from < 0 || from >= rows.len() {
        None
    } else if path_key(rows[from].path@) == key {
        Some(from)
    } else {
        by_key(rows, key, from + 1)
    }
}

/// The entry of a path: the one with exactly this path, or with its key unless the
/// path is managed.
pub open spec fn entry_at(rows: Seq<EntryRow>, path: Seq<char>) -> Option<int> {
    match by_path(rows, path) {
        Some(i) => Some(i),
        None => if managed(path) {
            None
        } else {
            by_key(rows, path_key(path), 0)
        },
    }
}

/// The entry of a source that a request names.
pub open spec fn entry_of(rows: Seq<EntryRow>, source: SourceRefV) -> Option<int> {
    match source.entry_id {
        Some(id) => match by_id(rows, id) {
            Some(i) => Some(i),
            None => entry_at(rows, source.text),
        },
        None => entry_at(rows, source.text),
    }
}

fn find_id(rows: &Vec<EntryRow>, id: u128) -> (r: Option<usize>)
    ensures
        match r {
            Some(i) => by_id(rows@, id) == Some(i as int) && i < rows@.len(),
            None => by_id(rows@, id) is None,
        },
{
    let mut i: usize = rows.len();
    assert(rows@.take(i as int) =~= rows@);
    while i > 0
        invariant
            i <= rows@.len(),
            by_id(rows@, id) == by_id(rows@.take(i as int), id),
        decreases i,
    {
        proof {
            assert(rows@.take(i as int).drop_last() =~= rows@.take(i - 1));
            assert(rows@.take(i as int).last() == rows@[i - 1]);
        }
        i = i - 1;
        if rows[i].id == id {
            return Some(i);
        }
    }
    None
}

fn find_path(rows: &Vec<EntryRow>, path: &str) -> (r: Option<usize>)
    ensures
        match r {
            Some(i) => by_path(rows@, path@) == Some(i as int) && i < rows@.len(),
            None => by_path(rows@, path@) is None,
        },
{
    let mut i: usize = rows.len();
    assert(rows@.take(i as int) =~= rows@);
    while i > 0
        invariant
            i <= rows@.len(),
            by_path(rows@, path@) == by_path(rows@.take(i as int), path@),
        decreases i,
    {
        proof {
            assert(rows@.take(i as int).drop_last() =~= rows@.take(i - 1));
            assert(rows@.take(i as int).last() == rows@[i - 1]);
        }
        i = i - 1;
        if same(rows[i].path.as_str(), path) {
            return Some(i);
        }
    }
    None
}

fn find_key(rows: &Vec<EntryRow>, key: &str) -> (r: Option<usize>)
    ensures
        match r {
            Some(i) => by_key(rows@, key@, 0) == Some(i as int) && i < rows@.len(),
            None => by_key(rows@, key@, 0) is None,
        },
{
    let mut i: usize = 0;
    while i < rows.len()
        invariant
            i <= rows@.len(),
            by_key(rows@, key@, 0) == by_key(rows@, key@, i as int),
        decreases rows@.len() - i,
    {
        if same(portable_path_key(rows[i].path.as_str()).as_str(), key) {
            return Some(i);
        }
        i = i + 1;
    }
    None
}

fn find_at(rows: &Vec<EntryRow>, path: &str) -> (r: Option<usize>)
    ensures
        match r {
            Some(i) => entry_at(rows@, path@) == Some(i as int) && i < rows@.len(),
            None => entry_at(rows@, path@) is None,
        },
{
    match find_path(rows, path) {
        Some(i) => Some(i),
        None => if is_managed(path) {
            None
        } else {
            find_key(rows, portable_path_key(path).as_str())
        },
    }
}

fn find_source(rows: &Vec<EntryRow>, source: &SourceRef) -> (r: Option<usize>)
    ensures
        match r {
            Some(i) => entry_of(rows@, source@) == Some(i as int) && i < rows@.len(),
            None => entry_of(rows@, source@) is None,
        },
{
    match source.entry_id {
        Some(id) => match find_id(rows, id) {
            Some(i) => Some(i),
            None => find_at(rows, source.text.as_str()),
        },
        None => find_at(rows, source.text.as_str()),
    }
}

/// Whether an entry is among those chosen.
pub open spec fn has_chosen(rows: Seq<EntryRow>, chosen: Seq<int>, id: u128) -> bool {
    exists|k: int| 0 <= k < chosen.len() && rows[#[trigger] chosen[k]].id == id
}

/// The choice with one more entry, unless it is there.
pub open spec fn chosen_with(rows: Seq<EntryRow>, chosen: Seq<int>, i: int) -> Seq<int> {
    if has_chosen(rows, chosen, rows[i].id) {
        chosen
    } else {
        chosen.push(i)
    }
}

/// The entries of the sources that a request names, each once; or the first source
/// that has none.
pub open spec fn chosen_named(rows: Seq<EntryRow>, sources: Seq<SourceRefV>) -> Result<
    Seq<int>,
    Seq<char>,
>
    decreases sources.len(),
{
    if sources.len() == 0 {
        Ok(Seq::empty())
    } else {
        match chosen_named(rows, sources.drop_last()) {
            Err(e) => Err(e),
            Ok(front) => match entry_of(rows, sources.last()) {
                Some(i) => Ok(chosen_with(rows, front, i)),
                None => Err(sources.last().text),
            },
        }
    }
}

/// The choice with the entries of the paths that the state mentions, where there are
/// any.
pub open spec fn chosen_mentioned(
    rows: Seq<EntryRow>,
    chosen: Seq<int>,
    paths: Seq<Seq<char>>,
) -> Seq<int>
    decreases paths.len(),
{
    if paths.len() == 0 {
        chosen
    } else {
        let front = chosen_mentioned(rows, chosen, paths.drop_last());
        match entry_at(rows, paths.last()) {
            Some(i) => chosen_with(rows, front, i),
            None => front,
        }
    }
}

/// How many of the mentioned paths are looked at.
pub open spec fn room_for_mentioned(named: int) -> int {
    if named < MAX_CHECKPOINT_SOURCES {
        MAX_CHECKPOINT_SOURCES - named
    } else {
        0
    }
}

/// The entries that a checkpoint is pinned to: all that the request names, and those
/// that the state mentions as far as there is room.
pub open spec fn chosen_sources(
    rows: Seq<EntryRow>,
    sources: Seq<SourceRefV>,
    mentioned: Seq<Seq<char>>,
) -> Result<Seq<int>, Seq<char>> {
    match chosen_named(rows, sources) {
        Err(e) => Err(e),
        Ok(named) => Ok(
            chosen_mentioned(
                rows,
                named,
                first_of(mentioned, room_for_mentioned(named.len() as int)),
            ),
        ),
    }
}

/// The entries that a checkpoint is pinned to. Where no entry has the identity or the
/// path of any source, none is missed.
pub open spec fn pinned_sources(
    found: bool,
    rows: Seq<EntryRow>,
    sources: Seq<SourceRefV>,
    mentioned: Seq<Seq<char>>,
) -> Result<Seq<int>, Seq<char>> {
    if found {
        chosen_sources(rows, sources, mentioned)
    } else {
        Ok(Seq::empty())
    }
}

pub open spec fn places(v: Seq<usize>) -> Seq<int> {
    Seq::new(v.len(), |i: int| v[i] as int)
}

fn put_place(rows: &Vec<EntryRow>, chosen: &mut Vec<usize>, i: usize)
    requires
        i < rows@.len(),
        forall|k: int| 0 <= k < old(chosen)@.len() ==> #[trigger] old(chosen)@[k] < rows@.len(),
    ensures
        places(final(chosen)@) == chosen_with(rows@, places(old(chosen)@), i as int),
        forall|k: int| 0 <= k < final(chosen)@.len() ==> #[trigger] final(chosen)@[k] < rows@.len(),
{
    let ghost all = places(chosen@);
    let mut k: usize = 0;
    while k < chosen.len()
        invariant
            k <= chosen@.len(),
            i < rows@.len(),
            chosen@ == old(chosen)@,
            all == places(chosen@),
            forall|j: int| 0 <= j < chosen@.len() ==> #[trigger] chosen@[j] < rows@.len(),
            forall|j: int| 0 <= j < k ==> rows@[#[trigger] all[j]].id != rows@[i as int].id,
        decreases chosen@.len() - k,
    {
        assert(all[k as int] == chosen@[k as int]);
        if rows[chosen[k]].id == rows[i].id {
            assert(has_chosen(rows@, all, rows@[i as int].id));
            return ;
        }
        k = k + 1;
    }
    chosen.push(i);
    assert(places(chosen@) =~= all.push(i as int));
}

proof fn lemma_named_fails(rows: Seq<EntryRow>, sources: Seq<SourceRefV>, n: int)
    requires
        0 <= n <= sources.len(),
        chosen_named(rows, sources.take(n)) is Err,
    ensures
        chosen_named(rows, sources) == chosen_named(rows, sources.take(n)),
    decreases sources.len() - n,
{
    if n == sources.len() {
        assert(sources.take(n) =~= sources);
    } else {
        assert(sources.take(n + 1).drop_last() =~= sources.take(n));
        lemma_named_fails(rows, sources, n + 1);
    }
}

/// The entries that a checkpoint is pinned to, as places in what was found under the
/// identities `ids`.
pub fn choose_sources(plan: &SourcePlan, ids: &Vec<u128>, rows: &Vec<EntryRow>) -> (r: Result<
    Vec<usize>,
    ApiError,
>)
    ensures
        match r {
            Ok(chosen) => pinned_sources(
                ids@.len() > 0,
                rows@,
                refs_view(plan.explicit@),
                texts(plan.inferred@),
            ) == Ok::<Seq<int>, Seq<char>>(places(chosen@)) && forall|k: int|
                0 <= k < chosen@.len() ==> #[trigger] chosen@[k] < rows@.len(),
            Err(e) => pinned_sources(
                ids@.len() > 0,
                rows@,
                refs_view(plan.explicit@),
                texts(plan.inferred@),
            ) is Err && e@ == ApiErrorV::NotFound(
                "entry_not_found"@,
                pinned_sources(
                    ids@.len() > 0,
                    rows@,
                    refs_view(plan.explicit@),
                    texts(plan.inferred@),
                )->Err_0,
            ),
        },
{
    if ids.len() == 0 {
        let none: Vec<usize> = Vec::new();
        assert(places(none@) =~= Seq::<int>::empty());
        return Ok(none);
    }
    let ghost sources = refs_view(plan.explicit@);
    let ghost mentioned = texts(plan.inferred@);
    let mut chosen: Vec<usize> = Vec::new();
    let mut i: usize = 0;
    assert(sources.take(0) =~= Seq::<SourceRefV>::empty());
    assert(places(chosen@) =~= Seq::<int>::empty());
    while i < plan.explicit.len()
        invariant
            i <= plan.explicit@.len(),
            ids@.len() > 0,
            sources == refs_view(plan.explicit@),
            mentioned == texts(plan.inferred@),
            chosen_named(rows@, sources.take(i as int)) == Ok::<Seq<int>, Seq<char>>(
                places(chosen@),
            ),
            forall|k: int| 0 <= k < chosen@.len() ==> #[trigger] chosen@[k] < rows@.len(),
        decreases plan.explicit@.len() - i,
    {
        proof {
            assert(sources.take(i + 1).drop_last() =~= sources.take(i as int));
            assert(sources.take(i + 1).last() == plan.explicit@[i as int]@);
        }
        match find_source(rows, &plan.explicit[i]) {
            Some(at) => put_place(rows, &mut chosen, at),
            None => {
                proof {
                    lemma_named_fails(rows@, sources, i + 1);
                }
                return Err(
                    ApiError::not_found("entry_not_found", plan.explicit[i].text.as_str()),
                );
            },
        }
        i = i + 1;
    }
    assert(sources.take(i as int) =~= sources);
    let ghost named = places(chosen@);
    assert(named.len() == chosen@.len());
    let room: usize = if chosen.len() < MAX_CHECKPOINT_SOURCES {
        MAX_CHECKPOINT_SOURCES - chosen.len()
    } else {
        0
    };
    let n: usize = if room < plan.inferred.len() {
        room
    } else {
        plan.inferred.len()
    };
    let ghost front = first_of(mentioned, room as int);
    let mut k: usize = 0;
    assert(front.take(0) =~= Seq::<Seq<char>>::empty());
    while k < n
        invariant
            k <= n <= plan.inferred@.len(),
            mentioned == texts(plan.inferred@),
            front == first_of(mentioned, room as int),
            front.len() == n,
            chosen_mentioned(rows@, named, front.take(k as int)) == places(chosen@),
            forall|j: int| 0 <= j < chosen@.len() ==> #[trigger] chosen@[j] < rows@.len(),
        decreases n - k,
    {
        proof {
            assert(front.take(k + 1).drop_last() =~= front.take(k as int));
            assert(front.take(k + 1).last() == plan.inferred@[k as int]@);
        }
        match find_at(rows, plan.inferred[k].as_str()) {
            Some(at) => put_place(rows, &mut chosen, at),
            None => {},
        }
        k = k + 1;
    }
    assert(front.take(k as int) =~= front);
    Ok(chosen)
}

// ---------------------------------------------------------------------------
// Laws
// ---------------------------------------------------------------------------

pub open spec fn distinct_entries(rows: Seq<EntryRow>, chosen: Seq<int>) -> bool {
    forall|i: int, j: int|
        0 <= i < j < chosen.len() ==> rows[#[trigger] chosen[i]].id != rows[#[trigger] chosen[j]].id
}

proof fn lemma_chosen_with(rows: Seq<EntryRow>, chosen: Seq<int>, i: int)
    requires
        distinct_entries(rows, chosen),
    ensures
        distinct_entries(rows, chosen_with(rows, chosen, i)),
        chosen.len() <= chosen_with(rows, chosen, i).len() <= chosen.len() + 1,
        has_chosen(rows, chosen_with(rows, chosen, i), rows[i].id),
        forall|id: u128| #[trigger]
            has_chosen(rows, chosen, id) ==> has_chosen(rows, chosen_with(rows, chosen, i), id),
{
    let new = chosen_with(rows, chosen, i);
    if !has_chosen(rows, chosen, rows[i].id) {
        assert(new[chosen.len() as int] == i);
        assert forall|a: int, b: int| 0 <= a < b < new.len() implies rows[#[trigger] new[a]].id
            != rows[#[trigger] new[b]].id by {
            assert(new[a] == chosen[a]);
            if b < chosen.len() {
                assert(new[b] == chosen[b]);
            }
        }
        assert forall|id: u128| #[trigger] has_chosen(rows, chosen, id) implies has_chosen(
            rows,
            new,
            id,
        ) by {
            let k = choose|k: int| 0 <= k < chosen.len() && rows[#[trigger] chosen[k]].id == id;
            assert(rows[new[k]].id == id);
        }
    }
}

proof fn lemma_chosen_named(rows: Seq<EntryRow>, sources: Seq<SourceRefV>)
    requires
        chosen_named(rows, sources) is Ok,
    ensures
        distinct_entries(rows, chosen_named(rows, sources)->Ok_0),
        chosen_named(rows, sources)->Ok_0.len() <= sources.len(),
        forall|i: int|
            0 <= i < sources.len() ==> entry_of(rows, #[trigger] sources[i]) is Some && has_chosen(
                rows,
                chosen_named(rows, sources)->Ok_0,
                rows[entry_of(rows, sources[i])->0].id,
            ),
    decreases sources.len(),
{
    if sources.len() > 0 {
        lemma_chosen_named(rows, sources.drop_last());
        let front = chosen_named(rows, sources.drop_last())->Ok_0;
        let at = entry_of(rows, sources.last())->0;
        lemma_chosen_with(rows, front, at);
        assert forall|i: int| 0 <= i < sources.len() implies entry_of(rows, #[trigger] sources[i])
            is Some && has_chosen(
            rows,
            chosen_named(rows, sources)->Ok_0,
            rows[entry_of(rows, sources[i])->0].id,
        ) by {
            if i < sources.len() - 1 {
                assert(sources.drop_last()[i] == sources[i]);
            }
        }
    }
}

proof fn lemma_chosen_mentioned(rows: Seq<EntryRow>, chosen: Seq<int>, paths: Seq<Seq<char>>)
    requires
        distinct_entries(rows, chosen),
    ensures
        distinct_entries(rows, chosen_mentioned(rows, chosen, paths)),
        chosen_mentioned(rows, chosen, paths).len() <= chosen.len() + paths.len(),
        forall|id: u128| #[trigger]
            has_chosen(rows, chosen, id) ==> has_chosen(
                rows,
                chosen_mentioned(rows, chosen, paths),
                id,
            ),
    decreases paths.len(),
{
    if paths.len() > 0 {
        lemma_chosen_mentioned(rows, chosen, paths.drop_last());
        match entry_at(rows, paths.last()) {
            Some(i) => {
                lemma_chosen_with(rows, chosen_mentioned(rows, chosen, paths.drop_last()), i);
            },
            None => {},
        }
    }
}

/// The entries that a checkpoint is pinned to are all different, and there are at
/// most as many as a checkpoint may have, unless the request itself names more.
/// Where any entry was found, every source that the request names is among them.
pub proof fn lemma_sources_are_pinned_once(
    found: bool,
    rows: Seq<EntryRow>,
    sources: Seq<SourceRefV>,
    mentioned: Seq<Seq<char>>,
)
    requires
        pinned_sources(found, rows, sources, mentioned) is Ok,
    ensures
        distinct_entries(rows, pinned_sources(found, rows, sources, mentioned)->Ok_0),
        sources.len() <= MAX_CHECKPOINT_SOURCES ==> pinned_sources(
            found,
            rows,
            sources,
            mentioned,
        )->Ok_0.len() <= MAX_CHECKPOINT_SOURCES,
        found ==> forall|i: int|
            0 <= i < sources.len() ==> has_chosen(
                rows,
                pinned_sources(found, rows, sources, mentioned)->Ok_0,
                rows[entry_of(rows, #[trigger] sources[i])->0].id,
            ),
{
    if found {
        lemma_chosen_named(rows, sources);
        let named = chosen_named(rows, sources)->Ok_0;
        lemma_chosen_mentioned(
            rows,
            named,
            first_of(mentioned, room_for_mentioned(named.len() as int)),
        );
    }
}

}
