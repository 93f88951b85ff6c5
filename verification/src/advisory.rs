//! The version-advisory collaborator's decision logic: whether the
//! daily marker allows another remote check today, and whether a
//! fetched release tag names a newer version than the running build.
//!
//! The marker file, the network call and the advisory output stay
//! outside the library; only the calendar-date formatting is reached
//! here, through chrono.

use vstd::prelude::*;

use crate::text::str_eq;

verus! {

/// `std::time::SystemTime`, as file metadata reports a modification
/// time; carried through opaquely.
#[verifier::external_type_specification]
#[verifier::external_body]
pub struct ExSystemTime(std::time::SystemTime);

/// Relies on `SystemTime::duration_since` to read the timestamp, and
/// on chrono's `DateTime::from_timestamp`, `with_timezone` and
/// `format` for the local calendar date (`%Y-%m-%d`) of it. `None`
/// when the timestamp lies before the epoch or beyond chrono's
/// representable years; none of these calls can panic. The date
/// depends on the machine's time zone, so nothing is promised of it.
#[verifier::external_body]
fn local_day_of(t: &std::time::SystemTime) -> (r: Option<String>) {
    t.duration_since(std::time::UNIX_EPOCH)
        .ok()
        .and_then(|d| i64::try_from(d.as_secs()).ok())
        .and_then(|sec| chrono::DateTime::from_timestamp(sec, 0))
        .map(|utc| utc.with_timezone(&chrono::Local).format("%Y-%m-%d").to_string())
}

/// Relies on chrono's `Local::now` and `format`: the current local
/// calendar date (`%Y-%m-%d`). Depends on the clock and the time zone,
/// so nothing is promised of it.
#[verifier::external_body]
fn local_day_now() -> (r: String) {
    chrono::Local::now().format("%Y-%m-%d").to_string()
}

/// Whether the marker timestamp falls on the current calendar day; a
/// timestamp no calendar date can be read from counts as not current,
/// which at worst lets one more check through. Both dates come from
/// the machine's clock and time zone, so no more is stated;
/// `version_check_due` carries the decision made with the result.
pub fn marker_is_current(modified: &std::time::SystemTime) -> bool {
    match local_day_of(modified) {
        Some(marker_day) => {
            let today = local_day_now();
            str_eq(marker_day.as_str(), today.as_str())
        },
        None => false,
    }
}

/// The remote release feed is consulted at most once per calendar day:
/// a check is due unless the marker exists and was written today.
pub fn version_check_due(marker_exists: bool, marker_current: bool) -> (r: bool)
    ensures
        r == (!marker_exists || !marker_current),
{
    !marker_exists || !marker_current
}

/// Whether a fetched release tag advertises another version than the
/// running build: the tag minus its leading character (release names
/// carry a `v` prefix) differs from the build's version string. An
/// empty tag — a malformed response — never does.
pub fn release_is_newer(release_name: &str, current_version: &str) -> (r: bool)
    ensures
        r == (release_name@.len() > 0 && release_name@.skip(1) != current_version@),
{
    let len = release_name.unicode_len();
    if len == 0 {
        return false;
    }
    let tail = release_name.substring_char(1, len);
    proof {
        assert(release_name@.subrange(1, len as int) =~= release_name@.skip(1));
    }
    !str_eq(tail, current_version)
}

} // verus!
