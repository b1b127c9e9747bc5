//! Laws of choosing sources: a reference finds the entry it means, every source that a
//! request names is chosen, and nothing is chosen that nobody named.
use vstd::prelude::*;

#[allow(unused_imports)]
use crate::checkpoint::outside_ref;
#[allow(unused_imports)]
use crate::json::{item_leaves, keys_in_order, member_leaves, text_leaves, JsonV};
#[allow(unused_imports)]
use crate::lexical::reads_as_path;
#[allow(unused_imports)]
use crate::outside::uuid_value;
#[allow(unused_imports)]
use crate::paths::{managed, path_key};
#[allow(unused_imports)]
use crate::read::EntryRow;
#[allow(unused_imports)]
use crate::seqs::first_of;
#[allow(unused_imports)]
use crate::sources::{
    by_id, by_key, by_path, chosen_mentioned, chosen_named, chosen_sources, chosen_with, entry_at,
    entry_of, has_chosen, mentioned_paths, named_sources, paths_of, paths_of_all, pinned_sources,
    room_for_mentioned, source_ref, SourceRefV,
};
#[allow(unused_imports)]
use crate::text::behind;

verus! {

// ---------------------------------------------------------------------------
// References
// ---------------------------------------------------------------------------

proof fn lemma_by_id(rows: Seq<EntryRow>, id: u128)
    ensures
        by_id(rows, id) matches Some(i) ==> 0 <= i < rows.len() && rows[i].id == id,
        by_id(rows, id) is None ==> forall|k: int| 0 <= k < rows.len() ==> (
        #[trigger] rows[k]).id != id,
    decreases rows.len(),
{
    if rows.len() > 0 && rows.last().id != id {
        let before = rows.drop_last();
        lemma_by_id(before, id);
        assert forall|k: int| 0 <= k < before.len() implies #[trigger] rows[k] == before[k] by {}
    }
}

proof fn lemma_by_path(rows: Seq<EntryRow>, path: Seq<char>)
    ensures
        by_path(rows, path) matches Some(i) ==> 0 <= i < rows.len() && rows[i].path@ == path,
        by_path(rows, path) is None ==> forall|k: int| 0 <= k < rows.len() ==> (
        #[trigger] rows[k]).path@ != path,
    decreases rows.len(),
{
    if rows.len() > 0 && rows.last().path@ != path {
        let before = rows.drop_last();
        lemma_by_path(before, path);
        assert forall|k: int| 0 <= k < before.len() implies #[trigger] rows[k] == before[k] by {}
    }
}

proof fn lemma_by_key(rows: Seq<EntryRow>, key: Seq<char>, from: int)
    requires
        0 <= from,
    ensures
        by_key(rows, key, from) matches Some(i) ==> from <= i < rows.len() && path_key(
            rows[i].path@,
        ) == key,
        by_key(rows, key, from) is None ==> forall|k: int| from <= k < rows.len() ==> path_key(
            (#[trigger] rows[k]).path@,
        ) != key,
    decreases rows.len() - from,
{
    if from < rows.len() && path_key(rows[from].path@) != key {
        lemma_by_key(rows, key, from + 1);
    }
}

/// Whether an entry is the one that a path means: it has that path, or, where none has and
/// the path is not managed, one with the same key.
pub open spec fn is_meant(rows: Seq<EntryRow>, path: Seq<char>, i: int) -> bool {
    &&& 0 <= i < rows.len()
    &&& rows[i].path@ == path || (!managed(path) && path_key(rows[i].path@) == path_key(path)
        && forall|k: int| 0 <= k < rows.len() ==> (#[trigger] rows[k]).path@ != path)
}

/// A path finds the entry it means, and finds none only where it means none.
pub proof fn lemma_paths_find_their_entries(rows: Seq<EntryRow>, path: Seq<char>)
    ensures
        entry_at(rows, path) matches Some(i) ==> is_meant(rows, path, i),
        entry_at(rows, path) is None ==> forall|i: int| !#[trigger] is_meant(rows, path, i),
{
    lemma_by_path(rows, path);
    lemma_by_key(rows, path_key(path), 0);
}

/// Whether an entry is the one that a source means: the one with its identity, where there
/// is one, and otherwise the one that its text means as a path.
pub open spec fn is_source(rows: Seq<EntryRow>, source: SourceRefV, i: int) -> bool {
    &&& 0 <= i < rows.len()
    &&& (source.entry_id matches Some(id) && rows[i].id == id) || ((source.entry_id matches Some(id)
        ==> forall|k: int| 0 <= k < rows.len() ==> (#[trigger] rows[k]).id != id) && is_meant(
        rows,
        source.text,
        i,
    ))
}

/// A source finds the entry it means, and finds none only where it means none.
pub proof fn lemma_sources_find_their_entries(rows: Seq<EntryRow>, source: SourceRefV)
    ensures
        entry_of(rows, source) matches Some(i) ==> is_source(rows, source, i),
        entry_of(rows, source) is None ==> forall|i: int| !#[trigger] is_source(rows, source, i),
{
    lemma_paths_find_their_entries(rows, source.text);
    match source.entry_id {
        Some(id) => {
            lemma_by_id(rows, id);
        },
        None => {},
    }
}

/// Whether a list has a source with a text.
pub open spec fn has_source(sources: Seq<SourceRefV>, text: Seq<char>) -> bool {
    exists|k: int| 0 <= k < sources.len() && (#[trigger] sources[k]).text == text
}

/// The sources of a request are its references into the workspace, all of them and no
/// others, each with the identity that it names; a reference to an entry without an
/// identity is refused.
pub proof fn lemma_references_become_sources(refs: Seq<Seq<char>>)
    ensures
        named_sources(refs) is None <==> exists|i: int|
            0 <= i < refs.len() && !outside_ref(#[trigger] refs[i]) && (behind(
                refs[i],
                "entry:"@,
            ) matches Some(id) && uuid_value(id) is None),
        named_sources(refs) matches Some(sources) ==> {
            &&& forall|k: int|
                0 <= k < sources.len() ==> refs.contains((#[trigger] sources[k]).text)
                    && !outside_ref(sources[k].text) && sources[k].entry_id == (match behind(
                    sources[k].text,
                    "entry:"@,
                ) {
                    Some(id) => uuid_value(id),
                    None => None,
                })
            &&& forall|i: int|
                0 <= i < refs.len() && !outside_ref(#[trigger] refs[i]) ==> has_source(
                    sources,
                    refs[i],
                )
        },
    decreases refs.len(),
{
    if refs.len() > 0 {
        let before = refs.drop_last();
        lemma_references_become_sources(before);
        let last = refs.last();
        assert(refs[refs.len() - 1] == last);
        assert forall|i: int| 0 <= i < before.len() implies #[trigger] refs[i] == before[i] by {}
        match named_sources(before) {
            None => {
                let i = choose|i: int|
                    0 <= i < before.len() && !outside_ref(#[trigger] before[i]) && (behind(
                        before[i],
                        "entry:"@,
                    ) matches Some(id) && uuid_value(id) is None);
                assert(refs[i] == before[i]);
            },
            Some(front) => {
                match named_sources(refs) {
                    None => {
                        assert(!outside_ref(refs[refs.len() - 1]));
                    },
                    Some(sources) => {
                        assert forall|k: int| 0 <= k < sources.len() implies refs.contains(
                            (#[trigger] sources[k]).text,
                        ) && !outside_ref(sources[k].text) && sources[k].entry_id == (match behind(
                            sources[k].text,
                            "entry:"@,
                        ) {
                            Some(id) => uuid_value(id),
                            None => None,
                        }) by {
                            if k < front.len() {
                                assert(sources[k] == front[k]);
                                assert(before.contains(front[k].text));
                                let i = choose|i: int|
                                    0 <= i < before.len() && before[i] == front[k].text;
                                assert(refs[i] == front[k].text);
                            } else {
                                assert(refs[refs.len() - 1] == sources[k].text);
                            }
                        }
                        assert forall|i: int|
                            0 <= i < refs.len() && !outside_ref(#[trigger] refs[i]) implies
                            has_source(sources, refs[i]) by {
                            if i < before.len() {
                                assert(refs[i] == before[i]);
                                assert(has_source(front, before[i]));
                                let k = choose|k: int|
                                    0 <= k < front.len() && (#[trigger] front[k]).text == before[i];
                                assert(sources[k] == front[k]);
                            } else {
                                assert(sources[front.len() as int].text == refs[i]);
                            }
                        }
                        if exists|i: int|
                            0 <= i < refs.len() && !outside_ref(#[trigger] refs[i]) && (behind(
                                refs[i],
                                "entry:"@,
                            ) matches Some(id) && uuid_value(id) is None) {
                            let i = choose|i: int|
                                0 <= i < refs.len() && !outside_ref(#[trigger] refs[i]) && (behind(
                                    refs[i],
                                    "entry:"@,
                                ) matches Some(id) && uuid_value(id) is None);
                            if i < before.len() {
                                assert(before[i] == refs[i]);
                            }
                        }
                    },
                }
            },
        }
    }
}

// ---------------------------------------------------------------------------
// The choice
// ---------------------------------------------------------------------------

/// Whether an entry was named as a source, or its path was mentioned.
pub open spec fn is_wanted(
    rows: Seq<EntryRow>,
    sources: Seq<SourceRefV>,
    mentioned: Seq<Seq<char>>,
    i: int,
) -> bool {
    ||| exists|k: int| 0 <= k < sources.len() && is_source(rows, #[trigger] sources[k], i)
    ||| exists|k: int| 0 <= k < mentioned.len() && is_meant(rows, #[trigger] mentioned[k], i)
}

proof fn lemma_named(rows: Seq<EntryRow>, sources: Seq<SourceRefV>)
    ensures
        match chosen_named(rows, sources) {
            Ok(chosen) => forall|c: int|
                0 <= c < chosen.len() ==> is_wanted(
                    rows,
                    sources,
                    Seq::empty(),
                    #[trigger] chosen[c],
                ),
            Err(text) => exists|k: int|
                0 <= k < sources.len() && (#[trigger] sources[k]).text == text && (forall|i: int|
                    !#[trigger] is_source(rows, sources[k], i)),
        },
    decreases sources.len(),
{
    if sources.len() > 0 {
        let before = sources.drop_last();
        lemma_named(rows, before);
        lemma_sources_find_their_entries(rows, sources.last());
        assert forall|k: int| 0 <= k < before.len() implies #[trigger] sources[k] == before[k] by {}
        let last = sources.len() - 1;
        match chosen_named(rows, before) {
            Err(text) => {
                let k = choose|k: int|
                    0 <= k < before.len() && (#[trigger] before[k]).text == text && (forall|i: int|
                        !#[trigger] is_source(rows, before[k], i));
                assert(sources[k] == before[k]);
            },
            Ok(front) => {
                match chosen_named(rows, sources) {
                    Err(text) => {
                        assert(sources[last].text == text);
                    },
                    Ok(chosen) => {
                        assert forall|c: int| 0 <= c < chosen.len() implies is_wanted(
                            rows,
                            sources,
                            Seq::empty(),
                            #[trigger] chosen[c],
                        ) by {
                            if c < front.len() {
                                assert(chosen[c] == front[c]);
                                assert(is_wanted(rows, before, Seq::empty(), front[c]));
                                let k = choose|k: int|
                                    0 <= k < before.len() && is_source(
                                        rows,
                                        #[trigger] before[k],
                                        front[c],
                                    );
                                assert(sources[k] == before[k]);
                            } else {
                                assert(is_source(rows, sources[last], chosen[c]));
                            }
                        }
                    },
                }
            },
        }
    }
}

proof fn lemma_mentioned(
    rows: Seq<EntryRow>,
    chosen: Seq<int>,
    paths: Seq<Seq<char>>,
    sources: Seq<SourceRefV>,
)
    requires
        forall|c: int|
            0 <= c < chosen.len() ==> is_wanted(rows, sources, Seq::empty(), #[trigger] chosen[c]),
    ensures
        forall|c: int|
            0 <= c < chosen_mentioned(rows, chosen, paths).len() ==> is_wanted(
                rows,
                sources,
                paths,
                #[trigger] chosen_mentioned(rows, chosen, paths)[c],
            ),
        chosen.len() <= chosen_mentioned(rows, chosen, paths).len(),
        chosen_mentioned(rows, chosen, paths).take(chosen.len() as int) == chosen,
        forall|k: int|
            0 <= k < paths.len() && (exists|i: int| is_meant(rows, #[trigger] paths[k], i))
                ==> has_chosen(
                rows,
                chosen_mentioned(rows, chosen, paths),
                rows[entry_at(rows, paths[k])->0].id,
            ),
    decreases paths.len(),
{
    let all = chosen_mentioned(rows, chosen, paths);
    if paths.len() == 0 {
        assert(chosen.take(chosen.len() as int) =~= chosen);
        assert forall|c: int| 0 <= c < all.len() implies is_wanted(
            rows,
            sources,
            paths,
            #[trigger] all[c],
        ) by {
            assert(is_wanted(rows, sources, Seq::empty(), chosen[c]));
        }
    } else {
        let before = paths.drop_last();
        let last = paths.len() - 1;
        lemma_mentioned(rows, chosen, before, sources);
        lemma_paths_find_their_entries(rows, paths.last());
        let front = chosen_mentioned(rows, chosen, before);
        assert(all.take(chosen.len() as int) =~= front.take(chosen.len() as int));
        assert forall|c: int| 0 <= c < all.len() implies is_wanted(
            rows,
            sources,
            paths,
            #[trigger] all[c],
        ) by {
            if c < front.len() {
                assert(all[c] == front[c]);
                assert(is_wanted(rows, sources, before, front[c]));
                if exists|k: int|
                    0 <= k < before.len() && is_meant(rows, #[trigger] before[k], front[c]) {
                    let k = choose|k: int|
                        0 <= k < before.len() && is_meant(rows, #[trigger] before[k], front[c]);
                    assert(paths[k] == before[k]);
                }
            } else {
                assert(is_meant(rows, paths[last], all[c]));
            }
        }
        assert forall|k: int|
            0 <= k < paths.len() && (exists|i: int| is_meant(rows, #[trigger] paths[k], i)) implies
            has_chosen(rows, all, rows[entry_at(rows, paths[k])->0].id) by {
            if k < last {
                assert(paths[k] == before[k]);
                let id = rows[entry_at(rows, paths[k])->0].id;
                assert(has_chosen(rows, front, id));
                let c = choose|c: int| 0 <= c < front.len() && rows[#[trigger] front[c]].id == id;
                assert(all[c] == front[c]);
            } else {
                let i = entry_at(rows, paths.last())->0;
                if has_chosen(rows, front, rows[i].id) {
                } else {
                    assert(all[front.len() as int] == i);
                }
            }
        }
    }
}

/// A checkpoint is pinned to entries that were named or mentioned and to no others, those
/// that were named first; a source without an entry is told, and a path that was mentioned
/// is passed over only where there is no entry or no room for it.
pub proof fn lemma_only_wanted_entries_are_chosen(
    rows: Seq<EntryRow>,
    sources: Seq<SourceRefV>,
    mentioned: Seq<Seq<char>>,
)
    ensures
        match chosen_sources(rows, sources, mentioned) {
            Ok(chosen) => {
                &&& forall|c: int|
                    0 <= c < chosen.len() ==> is_wanted(
                        rows,
                        sources,
                        mentioned,
                        #[trigger] chosen[c],
                    )
                &&& chosen_named(rows, sources) is Ok && chosen_named(
                    rows,
                    sources,
                )->Ok_0.is_prefix_of(chosen)
                &&& forall|k: int|
                    0 <= k < mentioned.len() && k + chosen_named(rows, sources)->Ok_0.len() < 64 && (
                    exists|i: int| is_meant(rows, #[trigger] mentioned[k], i)) ==> has_chosen(
                        rows,
                        chosen,
                        rows[entry_at(rows, mentioned[k])->0].id,
                    )
            },
            Err(text) => exists|k: int|
                0 <= k < sources.len() && (#[trigger] sources[k]).text == text && (forall|i: int|
                    !#[trigger] is_source(rows, sources[k], i)),
        },
{
    lemma_named(rows, sources);
    match chosen_named(rows, sources) {
        Err(_) => {},
        Ok(named) => {
            let room = room_for_mentioned(named.len() as int);
            let paths = first_of(mentioned, room);
            lemma_mentioned(rows, named, paths, sources);
            let chosen = chosen_mentioned(rows, named, paths);
            assert(named =~= chosen.take(named.len() as int));
            assert(named.is_prefix_of(chosen));
            assert forall|c: int| 0 <= c < chosen.len() implies is_wanted(
                rows,
                sources,
                mentioned,
                #[trigger] chosen[c],
            ) by {
                assert(is_wanted(rows, sources, paths, chosen[c]));
                if exists|k: int|
                    0 <= k < paths.len() && is_meant(rows, #[trigger] paths[k], chosen[c]) {
                    let k = choose|k: int|
                        0 <= k < paths.len() && is_meant(rows, #[trigger] paths[k], chosen[c]);
                    assert(mentioned[k] == paths[k]);
                }
            }
            assert forall|k: int|
                0 <= k < mentioned.len() && k + named.len() < 64 && (exists|i: int|
                    is_meant(rows, #[trigger] mentioned[k], i)) implies has_chosen(
                rows,
                chosen,
                rows[entry_at(rows, mentioned[k])->0].id,
            ) by {
                assert(paths[k] == mentioned[k]);
            }
        },
    }
}

// ---------------------------------------------------------------------------
// Mentioned paths
// ---------------------------------------------------------------------------

proof fn lemma_item_leaves(array: JsonV, n: nat, i: int, text: Seq<char>)
    requires
        array is Array,
        0 <= i < n <= array->Array_0.len(),
        text_leaves(array->Array_0[i]).contains(text),
    ensures
        item_leaves(array, n).contains(text),
    decreases n,
{
    let front = item_leaves(array, (n - 1) as nat);
    let last = text_leaves(array->Array_0[n - 1]);
    if i < n - 1 {
        lemma_item_leaves(array, (n - 1) as nat, i, text);
    }
    crate::seqs::lemma_add_contains(front, last, text);
}

/// The texts of a value are the value itself, where it is a text, and otherwise those of
/// its items.
pub proof fn lemma_texts_of_values(text: Seq<char>, items: Seq<JsonV>, i: int)
    requires
        0 <= i < items.len(),
    ensures
        text_leaves(JsonV::Text(text)) == seq![text],
        text_leaves(JsonV::Null).len() == 0,
        forall|t: Seq<char>|
            text_leaves(items[i]).contains(t) ==> #[trigger] text_leaves(
                JsonV::Array(items),
            ).contains(t),
{
    assert forall|t: Seq<char>| text_leaves(items[i]).contains(t) implies #[trigger] text_leaves(
        JsonV::Array(items),
    ).contains(t) by {
        lemma_item_leaves(JsonV::Array(items), items.len(), i, t);
    }
}

proof fn lemma_paths_of_all(v: Seq<Seq<char>>, k: int, path: Seq<char>)
    requires
        0 <= k < v.len(),
        paths_of(v[k]).contains(path),
    ensures
        paths_of_all(v).contains(path),
    decreases v.len(),
{
    if k < v.len() - 1 {
        lemma_paths_of_all(v.drop_last(), k, path);
    }
    crate::seqs::lemma_add_contains(paths_of_all(v.drop_last()), paths_of(v.last()), path);
}

/// A text of a state that reads as a path is mentioned, and so is every path that a text
/// of it has in it.
pub proof fn lemma_paths_are_mentioned(state: JsonV, text: Seq<char>)
    requires
        text_leaves(state).contains(text),
    ensures
        reads_as_path(text) ==> mentioned_paths(state).contains(text),
        forall|path: Seq<char>|
            crate::lexical::hints_of(text).contains(path) ==> #[trigger] mentioned_paths(
                state,
            ).contains(path),
{
    let v = text_leaves(state);
    let k = choose|k: int| 0 <= k < v.len() && v[k] == text;
    let own = if reads_as_path(text) {
        seq![text]
    } else {
        Seq::empty()
    };
    let hints = crate::lexical::hints_of(text);
    if reads_as_path(text) {
        assert(own[0] == text);
        crate::seqs::lemma_add_contains(own, hints, text);
        lemma_paths_of_all(v, k, text);
    }
    assert forall|path: Seq<char>| hints.contains(path) implies #[trigger] mentioned_paths(
        state,
    ).contains(path) by {
        crate::seqs::lemma_add_contains(own, hints, path);
        lemma_paths_of_all(v, k, path);
    }
}

} // verus!
