//! Classification of configuration-load failures: a missing configuration
//! file means "nothing to run", not an error.

use vstd::prelude::*;

verus! {

/// anyhow's boxed error, opaque here; the library only asks whether such an
/// error reports a missing file.
#[verifier::external_type_specification]
#[verifier::external_body]
pub struct ExAnyhowError(anyhow::Error);

/// The standard library's I/O error, opaque here.
#[verifier::external_type_specification]
#[verifier::external_body]
pub struct ExIoError(std::io::Error);

/// The I/O error an anyhow error chain reports: what
/// `anyhow::Error::downcast_ref::<std::io::Error>` finds, a function of the
/// error value alone.
pub uninterp spec fn io_of(e: anyhow::Error) -> Option<std::io::Error>;

/// Whether an I/O error's kind is NotFound, a function of the error value
/// alone.
pub uninterp spec fn kind_not_found(e: std::io::Error) -> bool;

/// Relies on anyhow::Error::downcast_ref::<std::io::Error>: a reference to
/// the first error of that type in the chain, if any.
#[verifier::external_body]
fn as_io_error<'a>(e: &'a anyhow::Error) -> (r: Option<&'a std::io::Error>)
    ensures
        (match r {
            Some(io) => io_of(*e) == Some(*io),
            None => io_of(*e) is None,
        }),
{
    e.downcast_ref::<std::io::Error>()
}

/// Relies on std::io::Error::kind: whether this error's kind is NotFound.
#[verifier::external_body]
fn is_not_found_kind(e: &std::io::Error) -> (r: bool)
    ensures
        r == kind_not_found(*e),
{
    matches!(e.kind(), std::io::ErrorKind::NotFound)
}

/// A load failure merely says the configuration file is absent when the
/// I/O error its chain reports has kind NotFound.
pub open spec fn spec_not_found(e: anyhow::Error) -> bool {
    match io_of(e) {
        Some(io) => kind_not_found(io),
        None => false,
    }
}

/// Whether a load failure merely says the configuration file is absent,
/// which the runner treats as nothing to run rather than as an error.
pub fn not_found(e: &anyhow::Error) -> (r: bool)
    ensures
        r == spec_not_found(*e),
{
    match as_io_error(e) {
        Some(io) => is_not_found_kind(io),
        None => false,
    }
}

} // verus!
