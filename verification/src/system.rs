//! What the tasks learn from the operating system: why an operation on a
//! socket failed, and which failures mean that the network is gone.

use vstd::prelude::*;

verus! {

/// The error of an operation of the operating system. Nothing of what it
/// holds is known here.
#[verifier::external_type_specification]
#[verifier::external_body]
pub struct ExIoError(std::io::Error);

/// An instant of a clock that never goes back. Nothing of what it holds is
/// known here.
#[verifier::external_type_specification]
#[verifier::external_body]
pub struct ExInstant(std::time::Instant);

/// The exit code of a process that may not read the clock.
pub const NOPERM: i32 = 75;

/// The error numbers by which the operating system says that a host or a
/// network cannot be reached.
#[derive(Clone, Copy, Debug, PartialEq, Eq, Structural)]
pub struct NetworkErrnos {
    pub host_down: i32,
    pub host_unreachable: i32,
    pub network_down: i32,
    pub network_unreachable: i32,
}

impl NetworkErrnos {
    /// Whether `code` is one of the four numbers.
    pub open spec fn spec_contains(&self, code: i32) -> bool {
        code == self.host_down || code == self.host_unreachable || code == self.network_down
            || code == self.network_unreachable
    }

    #[verifier::when_used_as_spec(spec_contains)]
    pub fn contains(&self, code: i32) -> (r: bool)
        ensures
            r == self.spec_contains(code),
    {
        code == self.host_down || code == self.host_unreachable || code == self.network_down
            || code == self.network_unreachable
    }

    /// The numbers of the platform that the library was built for.
    pub fn platform() -> Self {
        platform_errnos()
    }
}

/// The constants `EHOSTDOWN`, `EHOSTUNREACH`, `ENETDOWN` and `ENETUNREACH`
/// of the `libc` crate. Their values differ from platform to platform, so
/// nothing is claimed of them.
#[verifier::external_body]
fn platform_errnos() -> NetworkErrnos {
    NetworkErrnos {
        host_down: libc::EHOSTDOWN,
        host_unreachable: libc::EHOSTUNREACH,
        network_down: libc::ENETDOWN,
        network_unreachable: libc::ENETUNREACH,
    }
}

/// `std::io::Error::raw_os_error`: the error number of the operating system
/// that the error came from, if it came from there. Nothing is claimed of
/// the number.
#[verifier::external_body]
pub(crate) fn raw_os_error(error: &std::io::Error) -> Option<i32> {
    error.raw_os_error()
}

/// `ToString::to_string` of `std::io::Error`: what the error says of itself.
/// Nothing is claimed of the text.
#[verifier::external_body]
pub(crate) fn error_text(error: &std::io::Error) -> String {
    error.to_string()
}

/// Whether a failure with the error number `code` means that the network is
/// gone: there is a number, and it is one of `errnos`.
pub open spec fn spec_is_network_gone(code: Option<i32>, errnos: NetworkErrnos) -> bool {
    match code {
        Some(number) => errnos.contains(number),
        None => false,
    }
}

#[verifier::when_used_as_spec(spec_is_network_gone)]
pub fn is_network_gone(code: Option<i32>, errnos: NetworkErrnos) -> (r: bool)
    ensures
        r == spec_is_network_gone(code, errnos),
{
    match code {
        Some(number) => errnos.contains(number),
        None => false,
    }
}

} // verus!
