//! Replaying the history of an entry version by version.
use vstd::prelude::*;

use crate::error::ApiError;
#[allow(unused_imports)]
use crate::error::ApiErrorV;
use crate::json::Json;
#[allow(unused_imports)]
use crate::json::{alike, integer, object, JsonV};
use crate::paths::is_managed;
#[allow(unused_imports)]
use crate::paths::managed;
use crate::text::same;

verus! {

/// How a step of a history relates to the version before it.
#[derive(Clone, Copy, Debug, PartialEq, Eq, Structural)]
pub enum TierAHistorySemantics {
    /// The content changes.
    OrdinaryContentTransition,
    /// The version was made on purpose although the content is the same.
    PreserveIntentionalExactBytesVersion,
}

/// A step of a history: the version it makes, and how.
#[derive(Clone, Copy, Debug, PartialEq, Eq, Structural)]
pub struct TierAHistoryStage {
    pub target_lineage_ordinal: i64,
    pub semantics: TierAHistorySemantics,
}

/// What is done about a step that keeps the content.
#[derive(Clone, Copy, Debug, PartialEq, Eq, Structural)]
pub enum TierAExactHistoryAction {
    NotRequested,
    Append,
    Idempotent,
}

/// Whether metadata came from the import of a workspace.
pub open spec fn imported(metadata: JsonV) -> bool {
    match metadata.get("_brunn_import"@) {
        Some(v) => v.get_text("format"@) == Some("brunn-workspace-import-manifest@v1"@),
        None => false,
    }
}

/// Whether metadata came from the import of a workspace.
pub fn is_workspace_import(metadata: &Json) -> (r: bool)
    ensures
        r == imported(metadata@),
{
    match metadata.get("_brunn_import") {
        Some(v) => match v.get_text("format") {
            Some(t) => same(t.as_str(), "brunn-workspace-import-manifest@v1"),
            None => false,
        },
        None => false,
    }
}

pub open spec fn semantics_of(value: JsonV) -> Option<TierAHistorySemantics> {
    match value.get_text("semantics"@) {
        Some(t) => if t == "ordinary_content_transition"@ {
            Some(TierAHistorySemantics::OrdinaryContentTransition)
        } else if t == "preserve_intentional_exact_bytes_version"@ {
            Some(TierAHistorySemantics::PreserveIntentionalExactBytesVersion)
        } else {
            None
        },
        None => None,
    }
}

/// The step of a history that metadata describes.
pub open spec fn stage_of(metadata: JsonV) -> Result<Option<TierAHistoryStage>, ApiErrorV> {
    match metadata.get("_brunn_tier_a_history"@) {
        None => Ok(None),
        Some(value) => if value.get_text("format"@) != Some("brunn-tier-a-history-stage@v1"@) {
            Err(
                ApiErrorV::Invalid(
                    "Tier-A history stage metadata has a missing or unsupported format"@,
                ),
            )
        } else {
            match value.get_integer("target_lineage_ordinal"@) {
                Some(target) => if target <= 0 {
                    Err(
                        ApiErrorV::Invalid(
                            "Tier-A history stage target ordinal must be positive"@,
                        ),
                    )
                } else {
                    match semantics_of(value) {
                        None => Err(
                            ApiErrorV::Invalid(
                                "Tier-A history stage semantics are missing or unsupported"@,
                            ),
                        ),
                        Some(semantics) => if semantics
                            == TierAHistorySemantics::PreserveIntentionalExactBytesVersion && target
                            < 2 {
                            Err(
                                ApiErrorV::Invalid(
                                    "an intentional exact-byte history version must target ordinal 2 or later"@,
                                ),
                            )
                        } else {
                            Ok(
                                Some(
                                    TierAHistoryStage {
                                        target_lineage_ordinal: target as i64,
                                        semantics,
                                    },
                                ),
                            )
                        },
                    }
                },
                None => Err(
                    ApiErrorV::Invalid("Tier-A history stage target ordinal must be positive"@),
                ),
            }
        },
    }
}

/// An outcome, by what it says.
pub open spec fn outcome<T>(r: Result<T, ApiError>) -> Result<T, ApiErrorV> {
    match r {
        Ok(t) => Ok(t),
        Err(e) => Err(e@),
    }
}

/// Reads the step of a history that metadata describes.
pub fn parse_tier_a_history_stage(metadata: &Json) -> (r: Result<
    Option<TierAHistoryStage>,
    ApiError,
>)
    ensures
        outcome(r) == stage_of(metadata@),
{
    let value = match metadata.get("_brunn_tier_a_history") {
        Some(value) => value,
        None => {
            return Ok(None);
        },
    };
    let known = match value.get_text("format") {
        Some(t) => same(t.as_str(), "brunn-tier-a-history-stage@v1"),
        None => false,
    };
    if !known {
        return Err(
            ApiError::invalid("Tier-A history stage metadata has a missing or unsupported format"),
        );
    }
    let target: i64 = match value.get_integer("target_lineage_ordinal") {
        Some(target) => target,
        None => 0,
    };
    if target <= 0 {
        return Err(
            ApiError::invalid("Tier-A history stage target ordinal must be positive"),
        );
    }
    let semantics = match value.get_text("semantics") {
        Some(t) => if same(t.as_str(), "ordinary_content_transition") {
            TierAHistorySemantics::OrdinaryContentTransition
        } else if same(t.as_str(), "preserve_intentional_exact_bytes_version") {
            TierAHistorySemantics::PreserveIntentionalExactBytesVersion
        } else {
            return Err(
                ApiError::invalid("Tier-A history stage semantics are missing or unsupported"),
            );
        },
        None => {
            return Err(
                ApiError::invalid("Tier-A history stage semantics are missing or unsupported"),
            );
        },
    };
    if semantics == TierAHistorySemantics::PreserveIntentionalExactBytesVersion && target < 2 {
        return Err(
            ApiError::invalid(
                "an intentional exact-byte history version must target ordinal 2 or later",
            ),
        );
    }
    Ok(Some(TierAHistoryStage { target_lineage_ordinal: target, semantics }))
}

/// The step of a history that a write makes: one of an import, directly behind the
/// version that is expected; keeping the content only where evaluations run, and
/// never under a managed path.
pub open spec fn requested_stage(
    path: Seq<char>,
    metadata: JsonV,
    expected_version: Option<i64>,
    evaluation: bool,
) -> Result<Option<TierAHistoryStage>, ApiErrorV> {
    match stage_of(metadata) {
        Err(e) => Err(e),
        Ok(None) => Ok(None),
        Ok(Some(stage)) => if !imported(metadata) {
            Err(ApiErrorV::Invalid("Tier-A history replay requires workspace import metadata"@))
        } else {
            match expected_version {
                None => Err(
                    ApiErrorV::Invalid("Tier-A history replay requires expected_version"@),
                ),
                Some(expected) => if expected < 0 || expected + 1 != stage.target_lineage_ordinal {
                    Err(
                        ApiErrorV::Conflict(
                            "tier_a_history_ordinal_mismatch"@,
                            "Tier-A target ordinal must be exactly expected_version + 1"@,
                            object().with("path"@, JsonV::Text(path)).with(
                                "expected_version"@,
                                integer(expected as int),
                            ).with(
                                "target_lineage_ordinal"@,
                                integer(stage.target_lineage_ordinal as int),
                            ),
                        ),
                    )
                } else if stage.semantics
                    == TierAHistorySemantics::PreserveIntentionalExactBytesVersion && !evaluation {
                    Err(
                        ApiErrorV::Invalid(
                            "intentional exact-byte history preservation requires an evaluation-only stack"@,
                        ),
                    )
                } else if stage.semantics
                    == TierAHistorySemantics::PreserveIntentionalExactBytesVersion && managed(
                    path,
                ) {
                    Err(
                        ApiErrorV::Invalid(
                            "intentional exact-byte history preservation is not supported for managed paths"@,
                        ),
                    )
                } else {
                    Ok(Some(stage))
                },
            }
        },
    }
}

/// The step of a history that a write makes.
pub fn validate_tier_a_history_request(
    path: &str,
    metadata: &Json,
    expected_version: Option<i64>,
    evaluation_api_enabled: bool,
) -> (r: Result<Option<TierAHistoryStage>, ApiError>)
    ensures
        outcome(r) == requested_stage(path@, metadata@, expected_version, evaluation_api_enabled),
{
    let stage = match parse_tier_a_history_stage(metadata) {
        Ok(Some(stage)) => stage,
        Ok(None) => {
            return Ok(None);
        },
        Err(e) => {
            return Err(e);
        },
    };
    if !is_workspace_import(metadata) {
        return Err(ApiError::invalid("Tier-A history replay requires workspace import metadata"));
    }
    let expected: i64 = match expected_version {
        Some(expected) => expected,
        None => {
            return Err(ApiError::invalid("Tier-A history replay requires expected_version"));
        },
    };
    if expected < 0 || expected.checked_add(1) != Some(stage.target_lineage_ordinal) {
        return Err(
            ApiError::conflict(
                "tier_a_history_ordinal_mismatch",
                "Tier-A target ordinal must be exactly expected_version + 1",
                Json::object().with("path", Json::text(path)).with(
                    "expected_version",
                    Json::integer(expected),
                ).with("target_lineage_ordinal", Json::integer(stage.target_lineage_ordinal)),
            ),
        );
    }
    if stage.semantics == TierAHistorySemantics::PreserveIntentionalExactBytesVersion {
        if !evaluation_api_enabled {
            return Err(
                ApiError::invalid(
                    "intentional exact-byte history preservation requires an evaluation-only stack",
                ),
            );
        }
        if is_managed(path) {
            return Err(
                ApiError::invalid(
                    "intentional exact-byte history preservation is not supported for managed paths",
                ),
            );
        }
    }
    Ok(Some(stage))
}

pub open spec fn ordinals(current: int, target: int) -> JsonV {
    object().with("current_version"@, integer(current)).with(
        "target_lineage_ordinal"@,
        integer(target),
    )
}

fn write_ordinals(current: i64, target: i64) -> (r: Json)
    ensures
        r@ == ordinals(current as int, target as int),
{
    Json::object().with("current_version", Json::integer(current)).with(
        "target_lineage_ordinal",
        Json::integer(target),
    )
}

/// What is done about a step that keeps the content: it is appended directly behind
/// its predecessor, or it is there already; anything else is a conflict.
pub open spec fn exact_action(
    stage: Option<TierAHistoryStage>,
    current_version: Option<i64>,
    content_matches: bool,
    deleted: bool,
    current_metadata: Option<JsonV>,
    proposed: JsonV,
) -> Result<TierAExactHistoryAction, ApiErrorV> {
    if !(stage matches Some(s) && s.semantics
        == TierAHistorySemantics::PreserveIntentionalExactBytesVersion) {
        Ok(TierAExactHistoryAction::NotRequested)
    } else {
        let target = stage->0.target_lineage_ordinal as int;
        match current_version {
            None => Err(
                ApiErrorV::Conflict(
                    "tier_a_history_gap"@,
                    "Tier-A exact-history replay has no immediate predecessor"@,
                    object().with("target_lineage_ordinal"@, integer(target)),
                ),
            ),
            Some(current) => if current < target - 1 {
                Err(
                    ApiErrorV::Conflict(
                        "tier_a_history_gap"@,
                        "Tier-A exact-history replay is missing one or more predecessor versions"@,
                        ordinals(current as int, target),
                    ),
                )
            } else if current > target {
                Err(
                    ApiErrorV::Conflict(
                        "tier_a_history_ahead"@,
                        "Tier-A exact-history replay is already ahead of the requested target"@,
                        ordinals(current as int, target),
                    ),
                )
            } else if deleted || !content_matches {
                Err(
                    ApiErrorV::Conflict(
                        "tier_a_exact_history_identity_mismatch"@,
                        "Tier-A exact-history replay requires the immediate current version to have identical bytes"@,
                        ordinals(current as int, target),
                    ),
                )
            } else if current == target - 1 {
                Ok(TierAExactHistoryAction::Append)
            } else if (current_metadata matches Some(m) && alike(m, proposed)) && stage_of(
                proposed,
            ) is Err {
                Err(stage_of(proposed)->Err_0)
            } else if (current_metadata matches Some(m) && alike(m, proposed)) && stage_of(
                proposed,
            )->Ok_0 == stage {
                Ok(TierAExactHistoryAction::Idempotent)
            } else {
                Err(
                    ApiErrorV::Conflict(
                        "tier_a_exact_history_identity_mismatch"@,
                        "the existing Tier-A target ordinal does not match the requested identity"@,
                        ordinals(current as int, target),
                    ),
                )
            },
        }
    }
}

/// What is done about a step that keeps the content.
pub fn tier_a_exact_history_action(
    stage: Option<TierAHistoryStage>,
    current_version: Option<i64>,
    current_content_matches: bool,
    current_deleted: bool,
    current_metadata: Option<&Json>,
    proposed_metadata: &Json,
) -> (r: Result<TierAExactHistoryAction, ApiError>)
    ensures
        outcome(r) == exact_action(
            stage,
            current_version,
            current_content_matches,
            current_deleted,
            match current_metadata {
                Some(m) => Some(m@),
                None => None,
            },
            proposed_metadata@,
        ),
{
    let stage = match stage {
        Some(s) => if s.semantics == TierAHistorySemantics::PreserveIntentionalExactBytesVersion {
            s
        } else {
            return Ok(TierAExactHistoryAction::NotRequested);
        },
        None => {
            return Ok(TierAExactHistoryAction::NotRequested);
        },
    };
    let target: i64 = stage.target_lineage_ordinal;
    let current: i64 = match current_version {
        Some(current) => current,
        None => {
            return Err(
                ApiError::conflict(
                    "tier_a_history_gap",
                    "Tier-A exact-history replay has no immediate predecessor",
                    Json::object().with("target_lineage_ordinal", Json::integer(target)),
                ),
            );
        },
    };
    if (current as i128) < target as i128 - 1 {
        return Err(
            ApiError::conflict(
                "tier_a_history_gap",
                "Tier-A exact-history replay is missing one or more predecessor versions",
                write_ordinals(current, target),
            ),
        );
    }
    if current > target {
        return Err(
            ApiError::conflict(
                "tier_a_history_ahead",
                "Tier-A exact-history replay is already ahead of the requested target",
                write_ordinals(current, target),
            ),
        );
    }
    if current_deleted || !current_content_matches {
        return Err(
            ApiError::conflict(
                "tier_a_exact_history_identity_mismatch",
                "Tier-A exact-history replay requires the immediate current version to have identical bytes",
                write_ordinals(current, target),
            ),
        );
    }
    if current < target {
        return Ok(TierAExactHistoryAction::Append);
    }
    let same_metadata = match current_metadata {
        Some(m) => m.same(proposed_metadata),
        None => false,
    };
    if same_metadata {
        match parse_tier_a_history_stage(proposed_metadata) {
            Ok(Some(found)) => {
                if found == stage {
                    return Ok(TierAExactHistoryAction::Idempotent);
                }
            },
            Ok(None) => {},
            Err(e) => {
                return Err(e);
            },
        }
    }
    Err(
        ApiError::conflict(
            "tier_a_exact_history_identity_mismatch",
            "the existing Tier-A target ordinal does not match the requested identity",
            write_ordinals(current, target),
        ),
    )
}

/// A step that keeps the content is accepted only where the current version has
/// that content, is not deleted, and is the target or the one before it.
pub proof fn lemma_exact_history_fails_closed(
    stage: TierAHistoryStage,
    current_version: Option<i64>,
    content_matches: bool,
    deleted: bool,
    current_metadata: Option<JsonV>,
    proposed: JsonV,
)
    requires
        stage.semantics == TierAHistorySemantics::PreserveIntentionalExactBytesVersion,
        exact_action(
            Some(stage),
            current_version,
            content_matches,
            deleted,
            current_metadata,
            proposed,
        ) is Ok,
    ensures
        current_version is Some,
        stage.target_lineage_ordinal - 1 <= current_version->0 <= stage.target_lineage_ordinal,
        content_matches && !deleted,
        exact_action(
            Some(stage),
            current_version,
            content_matches,
            deleted,
            current_metadata,
            proposed,
        ) == Ok::<TierAExactHistoryAction, ApiErrorV>(
            if current_version->0 == stage.target_lineage_ordinal {
                TierAExactHistoryAction::Idempotent
            } else {
                TierAExactHistoryAction::Append
            },
        ),
{
}

/// A step that a request is granted stands directly behind the version that the
/// request expects.
pub proof fn lemma_stage_follows_expected_version(
    path: Seq<char>,
    metadata: JsonV,
    expected_version: Option<i64>,
    evaluation: bool,
)
    requires
        requested_stage(path, metadata, expected_version, evaluation) matches Ok(Some(_)),
    ensures
        expected_version is Some,
        requested_stage(path, metadata, expected_version, evaluation)->Ok_0->0.target_lineage_ordinal
            == expected_version->0 + 1,
        requested_stage(path, metadata, expected_version, evaluation)->Ok_0 == stage_of(
            metadata,
        )->Ok_0,
{
}

}
