//! What to tell an operator when a socket cannot be bound.
use vstd::prelude::*;
use vstd::string::*;
use crate::text::{debug_form, debug_text, decimal, decimal_text};

verus! {

/// How many arcs one identity exports at most.
pub const MAX_ARCS: usize = 64;

/// `std::io::Error`: why an operation of the system failed.
#[verifier::external_type_specification]
#[verifier::external_body]
pub struct ExIoError(std::io::Error);

/// Whether `io::Error::kind` is `PermissionDenied`.
pub uninterp spec fn is_kind_denied(error: std::io::Error) -> bool;

/// What `io::Error::raw_os_error` gives.
pub uninterp spec fn os_code(error: std::io::Error) -> Option<i32>;

/// `io::Error::kind`, held against `ErrorKind::PermissionDenied`.
#[verifier::external_body]
fn kind_is_denied(error: &std::io::Error) -> (r: bool)
    ensures
        r == is_kind_denied(*error),
{
    error.kind() == std::io::ErrorKind::PermissionDenied
}

/// `io::Error::raw_os_error`: the system's number for the error, where it has one.
#[verifier::external_body]
fn raw_os_error(error: &std::io::Error) -> (r: Option<i32>)
    ensures
        r == os_code(*error),
{
    error.raw_os_error()
}

/// `<io::Error as Display>::fmt`: the error in words, which are the system's own. Nothing is
/// promised of them.
#[verifier::external_body]
fn error_text(error: &std::io::Error) -> (r: String) {
    error.to_string()
}

/// The system refused an operation for want of permission: by its kind, or by one of the two numbers
/// that stand for that.
pub open spec fn is_refusal(kind_denied: bool, code: Option<i32>) -> bool {
    kind_denied || code == Some(1i32) || code == Some(13i32)
}

/// The socket that a message is about.
pub open spec fn socket_name(transport: Seq<char>, device: Option<Seq<char>>, port: u16) -> Seq<char> {
    match device {
        Some(dev) => transport + " socket on "@ + debug_form(dev) + " port "@ + decimal(port as nat),
        None => transport + " socket on port "@ + decimal(port as nat),
    }
}

/// What to tell an operator: which socket, and why; and for a privileged port that was refused, how
/// to be allowed to use it.
pub open spec fn bind_failure(
    transport: Seq<char>,
    device: Option<Seq<char>>,
    port: u16,
    reason: Seq<char>,
    refused: bool,
) -> Seq<char> {
    let told = "failed to bind "@ + socket_name(transport, device, port) + ": "@ + reason;
    if refused && port < 1024 {
        told
            + " — ports below 1024 are privileged; grant CAP_NET_BIND_SERVICE (AmbientCapabilities in the systemd unit) or set a port >= 1024 in the ntkd config"@
    } else {
        told
    }
}

/// An operator is told how to be allowed to use a port exactly where the system refused a port below
/// 1024; everywhere else the message does not depend on whether it was a refusal. A refusal is what
/// the system calls one, by its kind or by the numbers of `EPERM` and `EACCES`.
pub proof fn a_refused_privileged_port_comes_with_a_remedy(
    transport: Seq<char>,
    device: Option<Seq<char>>,
    port: u16,
    reason: Seq<char>,
    code: i32,
)
    ensures
        port < 1024 ==> bind_failure(transport, device, port, reason, true) == bind_failure(
            transport,
            device,
            port,
            reason,
            false,
        )
            + " — ports below 1024 are privileged; grant CAP_NET_BIND_SERVICE (AmbientCapabilities in the systemd unit) or set a port >= 1024 in the ntkd config"@,
        port >= 1024 ==> bind_failure(transport, device, port, reason, true) == bind_failure(
            transport,
            device,
            port,
            reason,
            false,
        ),
        is_refusal(true, None) && is_refusal(true, Some(code)),
        !is_refusal(false, None),
        is_refusal(false, Some(code)) <==> code == 1 || code == 13,
{
}

/// The text of an optional name.
pub open spec fn name_at(s: Option<&str>) -> Option<Seq<char>> {
    match s {
        Some(s) => Some(s@),
        None => None,
    }
}

/// What to tell an operator about a socket that could not be bound, given the reason in words and
/// whether it is a refusal.
pub fn bind_failure_text(
    transport: &str,
    device: Option<&str>,
    port: u16,
    reason: &str,
    refused: bool,
) -> (r: String)
    ensures
        r@ == bind_failure(transport@, name_at(device), port, reason@, refused),
{
    let mut target = transport.to_owned();
    match device {
        Some(dev) => {
            target.append(" socket on ");
            target.append(debug_text(dev).as_str());
            target.append(" port ");
            target.append(decimal_text(port as u64).as_str());
        },
        None => {
            target.append(" socket on port ");
            target.append(decimal_text(port as u64).as_str());
        },
    }
    let mut r = String::from_str("failed to bind ");
    r.append(target.as_str());
    r.append(": ");
    r.append(reason);
    if refused && port < 1024 {
        r.append(
            " — ports below 1024 are privileged; grant CAP_NET_BIND_SERVICE (AmbientCapabilities in the systemd unit) or set a port >= 1024 in the ntkd config",
        );
    }
    r
}

/// What to tell an operator about a socket that could not be bound.
pub fn describe_bind_failure(
    transport: &str,
    device: Option<&str>,
    port: u16,
    source: &std::io::Error,
) -> (r: String)
    ensures
        exists|reason: Seq<char>|
            r@ == #[trigger] bind_failure(
                transport@,
                name_at(device),
                port,
                reason,
                is_refusal(is_kind_denied(*source), os_code(*source)),
            ),
{
    let code = raw_os_error(source);
    let refused = kind_is_denied(source) || match code {
        Some(n) => n == 1 || n == 13,
        None => false,
    };
    assert(refused == is_refusal(is_kind_denied(*source), os_code(*source)));
    let reason = error_text(source);
    bind_failure_text(transport, device, port, reason.as_str(), refused)
}

} // verus!
