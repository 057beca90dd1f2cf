//! The parsing boundary for the three closed vocabularies.
//!
//! Status, priority and complexity arrive as free text and are matched
//! case-insensitively against fixed word lists; anything outside a list is
//! rejected here, before it can reach a task. Canonical output spellings
//! live with the enums themselves (`label`).

use vstd::prelude::*;
use crate::task::{Complexity, Priority, TaskStatus};

verus! {

/// A character's code point with ASCII uppercase letters folded to
/// lowercase; characters outside `A`..`Z` are left as they are.
pub open spec fn fold_ascii_upper(c: char) -> int {
    if 65 <= c as u32 && c as u32 <= 90 {
        c as u32 + 32
    } else {
        c as u32 as int
    }
}

/// Equality of two character sequences up to ASCII case.
pub open spec fn chars_ieq(a: Seq<char>, b: Seq<char>) -> bool {
    a.len() == b.len()
        && forall|i: int| 0 <= i < a.len() ==> fold_ascii_upper(a[i]) == fold_ascii_upper(b[i])
}

/// Relies on `str::eq_ignore_ascii_case`: an ASCII case-insensitive match,
/// equal length and character-wise equality after folding ASCII uppercase
/// letters to lowercase; characters outside ASCII compare exactly.
pub assume_specification[ str::eq_ignore_ascii_case ](s: &str, other: &str) -> (r: bool)
    ensures
        r == chars_ieq(s@, other@),
;

/// A parsed string was outside its closed vocabulary.
#[derive(Clone, Copy, Debug, PartialEq, Eq, Structural)]
pub enum ValidationError {
    InvalidStatus,
    InvalidPriority,
    InvalidComplexity,
}

/// The status a text names, if any: one of
/// `{pending, in-progress, done, blocked, deferred, cancelled}`, up to
/// ASCII case.
pub open spec fn status_from_chars(s: Seq<char>) -> Option<TaskStatus> {
    if chars_ieq(s, "pending"@) {
        Some(TaskStatus::Pending)
    } else if chars_ieq(s, "in-progress"@) {
        Some(TaskStatus::InProgress)
    } else if chars_ieq(s, "done"@) {
        Some(TaskStatus::Done)
    } else if chars_ieq(s, "blocked"@) {
        Some(TaskStatus::Blocked)
    } else if chars_ieq(s, "deferred"@) {
        Some(TaskStatus::Deferred)
    } else if chars_ieq(s, "cancelled"@) {
        Some(TaskStatus::Cancelled)
    } else {
        None
    }
}

/// The priority a text names, if any: one of `{high, medium, low}`, up to
/// ASCII case.
pub open spec fn priority_from_chars(s: Seq<char>) -> Option<Priority> {
    if chars_ieq(s, "high"@) {
        Some(Priority::High)
    } else if chars_ieq(s, "medium"@) {
        Some(Priority::Medium)
    } else if chars_ieq(s, "low"@) {
        Some(Priority::Low)
    } else {
        None
    }
}

/// The complexity a text names, if any: one of `{simple, medium, complex}`,
/// up to ASCII case.
pub open spec fn complexity_from_chars(s: Seq<char>) -> Option<Complexity> {
    if chars_ieq(s, "simple"@) {
        Some(Complexity::Simple)
    } else if chars_ieq(s, "medium"@) {
        Some(Complexity::Medium)
    } else if chars_ieq(s, "complex"@) {
        Some(Complexity::Complex)
    } else {
        None
    }
}

/// Parses a status word, rejecting anything outside the closed vocabulary.
pub fn parse_status(s: &str) -> (r: Result<TaskStatus, ValidationError>)
    ensures
        (match status_from_chars(s@) {
            Some(st) => r == Ok::<TaskStatus, ValidationError>(st),
            None => r == Err::<TaskStatus, ValidationError>(ValidationError::InvalidStatus),
        }),
{
    if s.eq_ignore_ascii_case("pending") {
        Ok(TaskStatus::Pending)
    } else if s.eq_ignore_ascii_case("in-progress") {
        Ok(TaskStatus::InProgress)
    } else if s.eq_ignore_ascii_case("done") {
        Ok(TaskStatus::Done)
    } else if s.eq_ignore_ascii_case("blocked") {
        Ok(TaskStatus::Blocked)
    } else if s.eq_ignore_ascii_case("deferred") {
        Ok(TaskStatus::Deferred)
    } else if s.eq_ignore_ascii_case("cancelled") {
        Ok(TaskStatus::Cancelled)
    } else {
        Err(ValidationError::InvalidStatus)
    }
}

/// Parses a priority word, rejecting anything outside the closed vocabulary.
pub fn parse_priority(s: &str) -> (r: Result<Priority, ValidationError>)
    ensures
        (match priority_from_chars(s@) {
            Some(p) => r == Ok::<Priority, ValidationError>(p),
            None => r == Err::<Priority, ValidationError>(ValidationError::InvalidPriority),
        }),
{
    if s.eq_ignore_ascii_case("high") {
        Ok(Priority::High)
    } else if s.eq_ignore_ascii_case("medium") {
        Ok(Priority::Medium)
    } else if s.eq_ignore_ascii_case("low") {
        Ok(Priority::Low)
    } else {
        Err(ValidationError::InvalidPriority)
    }
}

/// Parses a complexity word, rejecting anything outside the closed
/// vocabulary.
pub fn parse_complexity(s: &str) -> (r: Result<Complexity, ValidationError>)
    ensures
        (match complexity_from_chars(s@) {
            Some(c) => r == Ok::<Complexity, ValidationError>(c),
            None => r == Err::<Complexity, ValidationError>(ValidationError::InvalidComplexity),
        }),
{
    if s.eq_ignore_ascii_case("simple") {
        Ok(Complexity::Simple)
    } else if s.eq_ignore_ascii_case("medium") {
        Ok(Complexity::Medium)
    } else if s.eq_ignore_ascii_case("complex") {
        Ok(Complexity::Complex)
    } else {
        Err(ValidationError::InvalidComplexity)
    }
}

} // verus!
