//! Taking work up again: which sources of a checkpoint changed, and what changed in
//! them.
use vstd::prelude::*;

use crate::json::Json;
#[allow(unused_imports)]
use crate::json::{items_view, JsonV};
use crate::outside::{entry_ref, uuid_parse};
#[allow(unused_imports)]
use crate::outside::uuid_value;
use crate::paths::{portable_path_key, without_prefix};
#[allow(unused_imports)]
use crate::paths::{path_key, unprefixed};
#[allow(unused_imports)]
use crate::seqs::{lemma_filter_empty, lemma_filter_take, lemma_push_contains, lemma_texts_push};
use crate::text::{lower_ascii, strip_prefix};
#[allow(unused_imports)]
use crate::text::{ascii_lower, behind, texts};

verus! {

/// How many changed sources are compared.
pub const RESUME_DELTA_SOURCE_LIMIT: usize = 8;

/// How many characters all comparisons have together.
pub const RESUME_DELTA_TOTAL_CHARS: usize = 6000;

/// How many characters one comparison has.
pub const RESUME_DELTA_SOURCE_CHARS: usize = 2000;

/// Up to how many characters both texts are given whole.
pub const RESUME_DELTA_WHOLE_PAIR_CHARS: usize = 2400;

// ---------------------------------------------------------------------------
// The sources of a checkpoint
// ---------------------------------------------------------------------------

/// A source in the version that a checkpoint is pinned to.
#[derive(Clone, Debug)]
pub struct CheckpointSource {
    pub entry_id: u128,
    pub path: String,
    pub pinned_version: i64,
    pub pinned_sha256: String,
}

#[verifier::ext_equal]
pub struct PinnedV {
    pub entry_id: u128,
    pub path: Seq<char>,
    pub version: int,
    pub sha256: Seq<char>,
}

impl View for CheckpointSource {
    type V = PinnedV;

    open spec fn view(&self) -> PinnedV {
        PinnedV {
            entry_id: self.entry_id,
            path: self.path@,
            version: self.pinned_version as int,
            sha256: self.pinned_sha256@,
        }
    }
}

pub open spec fn pinned_view(sources: Seq<CheckpointSource>) -> Seq<PinnedV> {
    Seq::new(sources.len(), |i: int| sources[i]@)
}

fn copy_source(source: &CheckpointSource) -> (r: CheckpointSource)
    ensures
        r@ == source@,
{
    CheckpointSource {
        entry_id: source.entry_id,
        path: source.path.clone(),
        pinned_version: source.pinned_version,
        pinned_sha256: source.pinned_sha256.clone(),
    }
}

/// A source as a checkpoint keeps it; nothing where it does not say all there is to
/// say.
pub open spec fn pinned_source(value: JsonV) -> Option<PinnedV> {
    let id = match value.get_text("entry_ref"@) {
        Some(reference) => match behind(reference, "entry:"@) {
            Some(id) => uuid_value(id),
            None => None,
        },
        None => None,
    };
    let hash = match value.get("content_hash"@) {
        Some(v) => v.text(),
        None => value.get_text("pinned_sha256"@),
    };
    let path = value.get_text("path"@);
    let version = value.get_integer("version"@);
    if id is Some && hash is Some && path is Some && version is Some {
        Some(
            PinnedV {
                entry_id: id->0,
                path: path->0,
                version: version->0,
                sha256: ascii_lower(unprefixed(hash->0, "sha256:"@)),
            },
        )
    } else {
        None
    }
}

pub open spec fn pinned_sources(values: Seq<JsonV>) -> Seq<PinnedV>
    decreases values.len(),
{
    if values.len() == 0 {
        Seq::empty()
    } else {
        match pinned_source(values.last()) {
            Some(source) => pinned_sources(values.drop_last()).push(source),
            None => pinned_sources(values.drop_last()),
        }
    }
}

pub open spec fn optional_view(value: Option<&Json>) -> Option<JsonV> {
    match value {
        Some(v) => Some(v@),
        None => None,
    }
}

/// What a checkpoint keeps as its sources.
pub open spec fn source_values(checkpoint: Option<JsonV>) -> Seq<JsonV> {
    match checkpoint {
        Some(c) => match c.get("source_entries"@) {
            Some(JsonV::Array(items)) => items,
            _ => Seq::empty(),
        },
        None => Seq::empty(),
    }
}

fn read_source(value: &Json) -> (r: Option<CheckpointSource>)
    ensures
        match r {
            Some(source) => pinned_source(value@) == Some(source@),
            None => pinned_source(value@) is None,
        },
{
    let entry_id: u128 = match value.get_text("entry_ref") {
        Some(reference) => match strip_prefix(reference.as_str(), "entry:") {
            Some(id) => match uuid_parse(id.as_str()) {
                Some(id) => id,
                None => {
                    return None;
                },
            },
            None => {
                return None;
            },
        },
        None => {
            return None;
        },
    };
    let found: Option<&String> = match value.get("content_hash") {
        Some(v) => v.as_text(),
        None => value.get_text("pinned_sha256"),
    };
    let hash = match found {
        Some(hash) => hash,
        None => {
            return None;
        },
    };
    let pinned_sha256 = lower_ascii(without_prefix(hash.as_str(), "sha256:").as_str());
    let path = match value.get_text("path") {
        Some(path) => path.clone(),
        None => {
            return None;
        },
    };
    match value.get_integer("version") {
        Some(pinned_version) => Some(
            CheckpointSource { entry_id, path, pinned_version, pinned_sha256 },
        ),
        None => None,
    }
}

/// The sources of a checkpoint, in the order in which it names them.
pub fn checkpoint_sources(checkpoint: Option<&Json>) -> (r: Vec<CheckpointSource>)
    ensures
        pinned_view(r@) == pinned_sources(source_values(optional_view(checkpoint))),
{
    let mut out: Vec<CheckpointSource> = Vec::new();
    assert(pinned_view(out@) =~= Seq::<PinnedV>::empty());
    let values = match checkpoint {
        Some(c) => match c.get("source_entries") {
            Some(v) => match v.as_array() {
                Some(values) => values,
                None => {
                    return out;
                },
            },
            None => {
                return out;
            },
        },
        None => {
            return out;
        },
    };
    let ghost all = items_view(values@);
    let mut i: usize = 0;
    assert(all.take(0) =~= Seq::<JsonV>::empty());
    while i < values.len()
        invariant
            i <= values@.len(),
            all == items_view(values@),
            pinned_view(out@) == pinned_sources(all.take(i as int)),
        decreases values@.len() - i,
    {
        proof {
            assert(all.take(i + 1).drop_last() =~= all.take(i as int));
            assert(all.take(i + 1).last() == values@[i as int]@);
        }
        let ghost held = out@;
        match read_source(&values[i]) {
            Some(source) => {
                out.push(source);
                assert(pinned_view(out@) =~= pinned_view(held).push(source@));
            },
            None => {},
        }
        i = i + 1;
    }
    assert(all.take(i as int) =~= all);
    out
}

/// Whether a path is among the changes, by its key.
pub open spec fn is_changed(changes: Seq<JsonV>, path: Seq<char>) -> bool {
    exists|i: int|
        0 <= i < changes.len() && (#[trigger] changes[i]).get_text("path"@) is Some && path_key(
            changes[i].get_text("path"@)->0,
        ) == path_key(path)
}

fn changed_keys(changes: &Vec<Json>) -> (r: Vec<String>)
    ensures
        forall|k: Seq<char>| #[trigger]
            texts(r@).contains(k) <==> exists|i: int|
                0 <= i < changes@.len() && (#[trigger] items_view(changes@)[i]).get_text("path"@)
                    is Some && path_key(items_view(changes@)[i].get_text("path"@)->0) == k,
{
    let ghost all = items_view(changes@);
    let mut keys: Vec<String> = Vec::new();
    let mut i: usize = 0;
    while i < changes.len()
        invariant
            i <= changes@.len(),
            all == items_view(changes@),
            forall|k: Seq<char>| #[trigger]
                texts(keys@).contains(k) <==> exists|j: int|
                    0 <= j < i && (#[trigger] all[j]).get_text("path"@) is Some && path_key(
                        all[j].get_text("path"@)->0,
                    ) == k,
        decreases changes@.len() - i,
    {
        let ghost held = keys@;
        assert(all[i as int] == changes@[i as int]@);
        match changes[i].get_text("path") {
            Some(path) => {
                let key = portable_path_key(path.as_str());
                keys.push(key);
                proof {
                    lemma_texts_push(held, key);
                    assert forall|k: Seq<char>| #[trigger]
                        texts(keys@).contains(k) <==> exists|j: int|
                            0 <= j < i + 1 && (#[trigger] all[j]).get_text("path"@) is Some
                                && path_key(all[j].get_text("path"@)->0) == k by {
                        lemma_push_contains(texts(held), key@, k);
                        assert(texts(held).contains(k) <==> exists|j: int|
                            0 <= j < i && (#[trigger] all[j]).get_text("path"@) is Some && path_key(
                                all[j].get_text("path"@)->0,
                            ) == k);
                        if k == key@ {
                            assert(all[i as int].get_text("path"@) is Some);
                        }
                    }
                }
            },
            None => {},
        }
        i = i + 1;
    }
    keys
}

/// The sources of a checkpoint that changed, in the order in which it names them.
pub open spec fn changed_sources(checkpoint: Option<JsonV>, changes: Seq<JsonV>) -> Seq<PinnedV> {
    pinned_sources(source_values(checkpoint)).filter(|s: PinnedV| is_changed(changes, s.path))
}

/// The first sources, which are compared.
pub open spec fn compared(sources: Seq<PinnedV>) -> Seq<PinnedV> {
    if sources.len() > RESUME_DELTA_SOURCE_LIMIT {
        sources.take(RESUME_DELTA_SOURCE_LIMIT as int)
    } else {
        sources
    }
}

/// The sources behind those, which are only pointed to.
pub open spec fn passed_over(sources: Seq<PinnedV>) -> Seq<PinnedV> {
    if sources.len() > RESUME_DELTA_SOURCE_LIMIT {
        sources.skip(RESUME_DELTA_SOURCE_LIMIT as int)
    } else {
        Seq::empty()
    }
}

/// The sources of a checkpoint that changed: those that are compared, and those that
/// are not.
pub fn changed_checkpoint_sources(checkpoint: Option<&Json>, changes: &Vec<Json>) -> (r: (
    Vec<CheckpointSource>,
    Vec<CheckpointSource>,
))
    ensures
        pinned_view(r.0@) == compared(
            changed_sources(optional_view(checkpoint), items_view(changes@)),
        ),
        pinned_view(r.1@) == passed_over(
            changed_sources(optional_view(checkpoint), items_view(changes@)),
        ),
{
    let keys = changed_keys(changes);
    let sources = checkpoint_sources(checkpoint);
    let ghost all = pinned_view(sources@);
    let ghost values = items_view(changes@);
    let ghost f = |s: PinnedV| is_changed(values, s.path);
    let mut selected: Vec<CheckpointSource> = Vec::new();
    let mut overflow: Vec<CheckpointSource> = Vec::new();
    let mut i: usize = 0;
    proof {
        lemma_filter_empty(all.take(0), f);
        assert(pinned_view(selected@) =~= compared(all.take(0).filter(f)));
        assert(pinned_view(overflow@) =~= passed_over(all.take(0).filter(f)));
    }
    while i < sources.len()
        invariant
            i <= sources@.len(),
            all == pinned_view(sources@),
            values == items_view(changes@),
            f == (|s: PinnedV| is_changed(values, s.path)),
            forall|k: Seq<char>| #[trigger]
                texts(keys@).contains(k) <==> exists|j: int|
                    0 <= j < changes@.len() && (#[trigger] items_view(changes@)[j]).get_text(
                        "path"@,
                    ) is Some && path_key(items_view(changes@)[j].get_text("path"@)->0) == k,
            pinned_view(selected@) == compared(all.take(i as int).filter(f)),
            pinned_view(overflow@) == passed_over(all.take(i as int).filter(f)),
        decreases sources@.len() - i,
    {
        let source = &sources[i];
        proof {
            lemma_filter_take(all, f, i as int);
            assert(all[i as int] == source@);
            assert(values.len() == changes@.len());
        }
        let key = portable_path_key(source.path.as_str());
        let changed = crate::candidate::has_text(&keys, key.as_str());
        assert(changed == f(source@));
        if changed {
            let ghost before = all.take(i as int).filter(f);
            let copied = copy_source(source);
            assert(pinned_view(selected@).len() == selected@.len());
            if selected.len() < RESUME_DELTA_SOURCE_LIMIT {
                let ghost held = selected@;
                selected.push(copied);
                proof {
                    assert(pinned_view(selected@) =~= pinned_view(held).push(source@));
                    assert(compared(before) == before);
                    assert(compared(before.push(source@)) =~= before.push(source@));
                    assert(passed_over(before.push(source@)) =~= passed_over(before));
                }
            } else {
                let ghost held = overflow@;
                overflow.push(copied);
                proof {
                    assert(pinned_view(overflow@) =~= pinned_view(held).push(source@));
                    assert(compared(before.push(source@)) =~= compared(before));
                    assert(passed_over(before.push(source@)) =~= passed_over(before).push(source@));
                }
            }
        }
        i = i + 1;
    }
    assert(all.take(i as int) =~= all);
    (selected, overflow)
}

/// Every changed source is either compared or pointed to, in the order in which the
/// checkpoint names them, and only so many are compared.
pub proof fn lemma_changed_sources_are_accounted_for(
    checkpoint: Option<JsonV>,
    changes: Seq<JsonV>,
)
    ensures
        compared(changed_sources(checkpoint, changes)) + passed_over(
            changed_sources(checkpoint, changes),
        ) == changed_sources(checkpoint, changes),
        compared(changed_sources(checkpoint, changes)).len() <= RESUME_DELTA_SOURCE_LIMIT,
{
    let all = changed_sources(checkpoint, changes);
    assert(compared(all) + passed_over(all) =~= all);
}

}
