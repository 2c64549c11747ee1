use vstd::prelude::*;

verus! {

#[verifier::external_type_specification]
#[verifier::external_body]
pub struct ExIoError(std::io::Error);

/// Outcome of a best-effort permission-hardening attempt.
#[derive(Debug)]
pub enum BestEffortOutcome {
    /// Permissions were restricted to the owner.
    Hardened,
    /// The filesystem does not support permission operations; hardening was skipped.
    SkippedUnsupported,
    /// Hardening failed for another reason.
    Failed(std::io::Error),
}

/// Whether an error with the given kind flag and raw OS code means that the
/// filesystem does not support permission operations: `ErrorKind::Unsupported`,
/// or raw OS error 1 (invalid function) or 50 (not supported).
pub open spec fn unsupported_code(kind_unsupported: bool, raw_os_error: Option<i32>) -> bool {
    kind_unsupported || raw_os_error == Some(1i32) || raw_os_error == Some(50i32)
}

/// Classify an error by its kind flag and raw OS code.
pub fn is_unsupported_code(kind_unsupported: bool, raw_os_error: Option<i32>) -> (r: bool)
    ensures
        r == unsupported_code(kind_unsupported, raw_os_error),
{
    if kind_unsupported {
        return true;
    }
    match raw_os_error {
        Some(code) => code == 1 || code == 50,
        None => false,
    }
}

/// The raw OS error code an I/O error carries (`std::io::Error::raw_os_error`):
/// the code it was built from, if it was built from one.
pub uninterp spec fn io_raw_code(e: std::io::Error) -> Option<i32>;

/// Calls `std::io::Error::kind` and tells whether it is `ErrorKind::Unsupported`.
/// Which kind an OS error maps to depends on the platform, so nothing is
/// stated of the result.
#[verifier::external_body]
fn io_error_kind_is_unsupported(e: &std::io::Error) -> bool {
    matches!(e.kind(), std::io::ErrorKind::Unsupported)
}

/// Calls `std::io::Error::raw_os_error`; its result is named by `io_raw_code`.
#[verifier::external_body]
fn io_error_raw_os_error(e: &std::io::Error) -> (r: Option<i32>)
    ensures
        r == io_raw_code(*e),
{
    e.raw_os_error()
}

/// The error carries raw OS code 1 (invalid function) or 50 (not supported).
pub open spec fn unsupported_os_code(e: std::io::Error) -> bool {
    io_raw_code(e) == Some(1i32) || io_raw_code(e) == Some(50i32)
}

/// Whether an I/O error indicates an unsupported / ACL-less filesystem:
/// `is_unsupported_code` of its kind flag and its raw OS code. An error with
/// raw OS code 1 or 50 always counts as unsupported.
pub fn is_unsupported(e: &std::io::Error) -> (r: bool)
    ensures
        unsupported_os_code(*e) ==> r,
        exists|kind_unsupported: bool| r == #[trigger] unsupported_code(kind_unsupported, io_raw_code(*e)),
{
    let kind = io_error_kind_is_unsupported(e);
    let raw = io_error_raw_os_error(e);
    is_unsupported_code(kind, raw)
}

/// `is_unsupported`, public for the platform tests.
pub fn is_unsupported_pub_for_test(e: &std::io::Error) -> (r: bool)
    ensures
        unsupported_os_code(*e) ==> r,
        exists|kind_unsupported: bool| r == #[trigger] unsupported_code(kind_unsupported, io_raw_code(*e)),
{
    is_unsupported(e)
}

/// The temporary path an atomic write goes through: the path with `.tmp`
/// appended, in the same directory.
pub fn tmp_path_for(path: &str) -> (r: String)
    ensures
        r@ == path@ + ".tmp"@,
{
    path.to_owned().concat(".tmp")
}

/// The outcome of a hardening attempt, given its result and, for an error,
/// whether its kind is `Unsupported` and its raw OS code: `Hardened` on
/// success, `SkippedUnsupported` for an unsupported-filesystem error, and
/// otherwise `Failed` with the error.
pub fn harden_outcome(result: Result<(), std::io::Error>, kind_unsupported: bool, raw_os_error: Option<i32>) -> (out: BestEffortOutcome)
    ensures
        match result {
            Ok(_) => out is Hardened,
            Err(e) => if unsupported_code(kind_unsupported, raw_os_error) {
                out is SkippedUnsupported
            } else {
                out == BestEffortOutcome::Failed(e)
            },
        },
{
    match result {
        Ok(()) => BestEffortOutcome::Hardened,
        Err(e) => {
            if is_unsupported_code(kind_unsupported, raw_os_error) {
                BestEffortOutcome::SkippedUnsupported
            } else {
                BestEffortOutcome::Failed(e)
            }
        }
    }
}

/// Classify the result of a hardening attempt: `Hardened` on success,
/// `SkippedUnsupported` when the error means an unsupported filesystem
/// (`is_unsupported`), otherwise `Failed` with the error.
pub fn best_effort_harden_with_result_for_test(result: Result<(), std::io::Error>) -> (out: BestEffortOutcome)
    ensures
        result is Ok <==> out is Hardened,
        match result {
            Ok(_) => true,
            Err(e) => {
                &&& unsupported_os_code(e) ==> out is SkippedUnsupported
                &&& exists|kind_unsupported: bool| #[trigger] unsupported_code(kind_unsupported, io_raw_code(e))
                    == (out is SkippedUnsupported)
                &&& !(out is SkippedUnsupported) ==> out == BestEffortOutcome::Failed(e)
            },
        },
{
    match result {
        Ok(()) => BestEffortOutcome::Hardened,
        Err(e) => {
            let kind = io_error_kind_is_unsupported(&e);
            let raw = io_error_raw_os_error(&e);
            harden_outcome(Err(e), kind, raw)
        }
    }
}

} // verus!
