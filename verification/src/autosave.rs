//! Decisions of the autosave worker: whether a workspace needs saving, and
//! what a save attempt reports and records.
use vstd::prelude::*;
use vstd::string::StringExecFns;

verus! {

/// What to do with a save request.
#[derive(Debug, Clone, PartialEq, Eq)]
pub enum AutosavePlan {
    /// The workspace is the one last saved: report success, write nothing.
    Unchanged,
    /// Write the workspace whose fingerprint is given.
    Save(u64),
    /// The fingerprint could not be computed: report this message.
    Failed(String),
}

/// Message reported when a workspace's fingerprint cannot be computed.
pub open spec fn fingerprint_failure(error: Seq<char>) -> Seq<char> {
    "Autosave failed: fingerprint error: "@ + error
}

/// Plan for a save request: nothing to write when the fingerprint is the
/// one last saved, else a save of it; a fingerprint error is reported.
pub fn plan_autosave(last_saved: Option<u64>, fingerprint: Result<u64, String>) -> (plan: AutosavePlan)
    ensures
        match fingerprint {
            Ok(f) => if last_saved == Some(f) {
                plan == AutosavePlan::Unchanged
            } else {
                plan == AutosavePlan::Save(f)
            },
            Err(e) => plan matches AutosavePlan::Failed(m) && m@ == fingerprint_failure(e@),
        },
{
    match fingerprint {
        Ok(f) => {
            if last_saved == Some(f) {
                AutosavePlan::Unchanged
            } else {
                AutosavePlan::Save(f)
            }
        },
        Err(e) => {
            let mut message = String::from_str("Autosave failed: fingerprint error: ");
            message.append(e.as_str());
            AutosavePlan::Failed(message)
        },
    }
}

/// Message of a save attempt that failed: the terminal projection's error,
/// the workspace file's error, or both; `None` when both writes succeeded.
pub open spec fn save_failure(projection_error: Option<Seq<char>>, workspace_error: Option<Seq<char>>) -> Option<
    Seq<char>,
> {
    match (projection_error, workspace_error) {
        (None, None) => None,
        (Some(p), None) => Some("Autosave failed: projection save error: "@ + p),
        (None, Some(w)) => Some("Autosave failed: "@ + w),
        (Some(p), Some(w)) => Some(
            "Autosave failed: projection save error: "@ + p + "; workspace save error: "@ + w,
        ),
    }
}

/// Text of an optional string.
pub open spec fn text_of(s: Option<String>) -> Option<Seq<char>> {
    match s {
        Some(t) => Some(t@),
        None => None,
    }
}

/// Outcome of writing the workspace with fingerprint `fingerprint`: the
/// fingerprint now saved (this one when both writes succeeded, else the
/// one saved before) and the message to report.
pub fn finish_autosave(
    last_saved: Option<u64>,
    fingerprint: u64,
    projection_error: Option<String>,
    workspace_error: Option<String>,
) -> (outcome: (Option<u64>, Option<String>))
    ensures
        text_of(outcome.1) == save_failure(text_of(projection_error), text_of(workspace_error)),
        outcome.0 == if projection_error is None && workspace_error is None {
            Some(fingerprint)
        } else {
            last_saved
        },
{
    match (projection_error, workspace_error) {
        (None, None) => (Some(fingerprint), None),
        (Some(p), None) => {
            let mut message = String::from_str("Autosave failed: projection save error: ");
            message.append(p.as_str());
            (last_saved, Some(message))
        },
        (None, Some(w)) => {
            let mut message = String::from_str("Autosave failed: ");
            message.append(w.as_str());
            (last_saved, Some(message))
        },
        (Some(p), Some(w)) => {
            let mut message = String::from_str("Autosave failed: projection save error: ");
            message.append(p.as_str());
            message.append("; workspace save error: ");
            message.append(w.as_str());
            (last_saved, Some(message))
        },
    }
}

} // verus!
