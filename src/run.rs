//! The decisions around one run: whether a target may be deleted, whether the
//! operator confirmed, and what the run reports at the end.
use vstd::prelude::*;
use crate::error::{Error, FailedItem};
use crate::stats::DeletionStats;

verus! {

/// What the safety policy says of a target.
pub enum SafetyCheck {
    Safe,
    Dangerous { reason: String, can_override: bool },
}

/// Whether the deletion goes ahead after the safety policy was consulted.
#[derive(PartialEq, Eq, Debug)]
pub enum SafetyVerdict {
    /// Go ahead.
    Proceed,
    /// Go ahead, with a warning that a dangerous path is being deleted.
    ProceedForced,
}

/// Refuses a target that does not exist or is not a directory.
pub fn check_target(path: &String, exists: bool, is_dir: bool) -> (r: Result<(), Error>)
    ensures
        exists && is_dir <==> r is Ok,
        !exists ==> (match r {
            Err(Error::InvalidPath { path: p, reason }) => p == *path && reason@
                == "path does not exist"@,
            _ => false,
        }),
        exists && !is_dir ==> (match r {
            Err(Error::InvalidPath { path: p, reason }) => p == *path && reason@
                == "not a directory"@,
            _ => false,
        }),
{
    if !exists {
        return Err(Error::InvalidPath { path: path.clone(), reason: "path does not exist".to_owned() });
    }
    if !is_dir {
        return Err(Error::InvalidPath { path: path.clone(), reason: "not a directory".to_owned() });
    }
    Ok(())
}

/// The safety policy: the filesystem root is never deleted, and the home
/// directory only with `--force`.
pub fn check_path_safety(path: &String, home: &Option<String>) -> (r: SafetyCheck)
    ensures
        path@ == "/"@ ==> (r matches SafetyCheck::Dangerous { can_override: false, .. }),
        path@ != "/"@ && home.is_some() && home.unwrap()@ == path@ ==> (
        r matches SafetyCheck::Dangerous { can_override: true, .. }),
        path@ != "/"@ && !(home.is_some() && home.unwrap()@ == path@) ==> (r matches SafetyCheck::Safe),
{
    proof {
        reveal_strlit("/");
    }
    let root = "/".to_owned();
    if *path == root {
        return SafetyCheck::Dangerous {
            reason: "refusing to delete the filesystem root".to_owned(),
            can_override: false,
        };
    }
    match home {
        Some(h) => {
            if *h == *path {
                return SafetyCheck::Dangerous {
                    reason: "path is the home directory".to_owned(),
                    can_override: true,
                };
            }
        },
        None => {},
    }
    SafetyCheck::Safe
}

/// Applies the safety policy's answer: a dangerous path needs `force`, and a
/// path that cannot be overridden is refused even with it.
pub fn safety_verdict(path: &String, check: &SafetyCheck, force: bool) -> (r: Result<
    SafetyVerdict,
    Error,
>)
    ensures
        (check matches SafetyCheck::Safe) ==> r == Ok::<SafetyVerdict, Error>(SafetyVerdict::Proceed),
        (check matches SafetyCheck::Dangerous { can_override: true, .. }) && force ==> r == Ok::<
            SafetyVerdict,
            Error,
        >(SafetyVerdict::ProceedForced),
        (check matches SafetyCheck::Dangerous { .. }) && !force ==> (match r {
            Err(Error::InvalidPath { path: p, reason }) => p == *path && reason@
                == "dangerous path - requires --force (if allowed)"@,
            _ => false,
        }),
        (check matches SafetyCheck::Dangerous { can_override: false, .. }) && force ==> (match r {
            Err(Error::InvalidPath { path: p, reason }) => p == *path && reason@
                == "system directory cannot be deleted"@,
            _ => false,
        }),
{
    match check {
        SafetyCheck::Safe => Ok(SafetyVerdict::Proceed),
        SafetyCheck::Dangerous { reason: _, can_override } => {
            if !force {
                Err(Error::InvalidPath {
                    path: path.clone(),
                    reason: "dangerous path - requires --force (if allowed)".to_owned(),
                })
            } else if !*can_override {
                Err(Error::InvalidPath {
                    path: path.clone(),
                    reason: "system directory cannot be deleted".to_owned(),
                })
            } else {
                Ok(SafetyVerdict::ProceedForced)
            }
        },
    }
}

pub uninterp spec fn trim_of(s: Seq<char>) -> Seq<char>;

pub uninterp spec fn lower_of(s: Seq<char>) -> Seq<char>;

/// Relies on str::trim: leading and trailing whitespace removed, a function of
/// the characters alone.
#[verifier::external_body]
fn trimmed(s: &str) -> (r: &str)
    ensures
        r@ == trim_of(s@),
{
    s.trim()
}

/// Relies on str::to_lowercase: the lowercase form, a function of the
/// characters alone.
#[verifier::external_body]
fn lowercase(s: &str) -> (r: String)
    ensures
        r@ == lower_of(s@),
{
    s.to_lowercase()
}

/// An answer, already trimmed and lowercased, that agrees to go ahead.
pub open spec fn is_yes(answer: Seq<char>) -> bool {
    answer == "y"@ || answer == "yes"@
}

/// `answer`, already trimmed and lowercased, agrees to go ahead.
pub fn is_affirmative(answer: &String) -> (r: bool)
    ensures
        r == is_yes(answer@),
{
    proof {
        reveal_strlit("y");
        reveal_strlit("yes");
    }
    let y = "y".to_owned();
    let yes = "yes".to_owned();
    *answer == y || *answer == yes
}

/// The operator's reply to the confirmation prompt agrees to go ahead: it is
/// `y` or `yes` in any case, with surrounding whitespace ignored.
pub fn confirms(response: &String) -> (r: bool)
    ensures
        r == is_yes(lower_of(trim_of(response@))),
{
    let folded = lowercase(trimmed(response.as_str()));
    is_affirmative(&folded)
}

/// The result of deleting one target once its workers have finished:
/// success when the failure log is empty, otherwise a partial failure that
/// counts the completed directories and the failures.
pub fn target_outcome(stats: DeletionStats, failures: Vec<FailedItem>, completed: usize) -> (r:
    Result<DeletionStats, Error>)
    requires
        completed + failures@.len() <= usize::MAX,
    ensures
        failures@.len() == 0 ==> r == Ok::<DeletionStats, Error>(stats),
        failures@.len() > 0 ==> r == Err::<DeletionStats, Error>(
            Error::PartialFailure {
                total: (completed + failures@.len()) as usize,
                failed: failures@.len() as usize,
                errors: failures,
            },
        ),
{
    let n = failures.len();
    if n == 0 {
        Ok(stats)
    } else {
        Err(Error::PartialFailure { total: completed + n, failed: n, errors: failures })
    }
}

/// The result of a run over several targets: success when no target failed
/// and no item failed, otherwise a partial failure over all of them.
pub fn run_outcome(total: &DeletionStats, failures: Vec<FailedItem>, failed_targets: usize) -> (r:
    Result<(), Error>)
    requires
        total.dirs_deleted + total.files_deleted <= usize::MAX,
        failures@.len() + failed_targets <= usize::MAX,
    ensures
        failures@.len() == 0 && failed_targets == 0 ==> r is Ok,
        failures@.len() > 0 || failed_targets > 0 ==> r == Err::<(), Error>(
            Error::PartialFailure {
                total: (total.dirs_deleted + total.files_deleted) as usize,
                failed: (failures@.len() + failed_targets) as usize,
                errors: failures,
            },
        ),
{
    let n = failures.len();
    if n == 0 && failed_targets == 0 {
        Ok(())
    } else {
        Err(Error::PartialFailure {
            total: total.total_items(),
            failed: n + failed_targets,
            errors: failures,
        })
    }
}

} // verus!
