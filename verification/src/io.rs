//! The decisions of the UDP socket layer: ECN codepoints and which receive
//! errors merely end a batch.
use vstd::prelude::*;
use std::io::ErrorKind;

verus! {

/// The ECT(0) codepoint the sender marks its datagrams with.
pub const ECN_ECT0: u8 = 2;

/// The ECN codepoint (the two low bits) of an IP TOS / traffic-class byte.
pub fn ecn_from_tos(tos: u8) -> (ecn: u8)
    ensures
        ecn == tos % 4,
{
    assert(tos & 3 == tos % 4) by (bit_vector);
    tos & 3
}

/// The receive errors the batch loop tells apart.
#[derive(Clone, Copy, Debug, PartialEq, Eq, Structural)]
pub enum RecvErrorKind {
    WouldBlock,
    ConnectionReset,
    ConnectionRefused,
    Interrupted,
    /// Any other error: it is reported, not swallowed.
    Other,
}

/// A transient receive error ends the current batch instead of failing it:
/// nothing to read now, or a stale ICMP error from an earlier send.
pub fn is_transient_kind(kind: RecvErrorKind) -> (b: bool)
    ensures
        b == !(kind is Other),
{
    match kind {
        RecvErrorKind::Other => false,
        _ => true,
    }
}

/// The standard library's I/O error kind. It is a fieldless enum, so Verus
/// reads its variants and a contract can name them.
#[verifier::external_type_specification]
pub struct ExErrorKind(ErrorKind);

/// `std::io::ErrorKind` sorted into the kinds above: `WouldBlock`,
/// `ConnectionReset`, `ConnectionRefused` and `Interrupted` to themselves,
/// every other kind to `Other`.
fn classify_recv_error(kind: ErrorKind) -> (r: RecvErrorKind)
    ensures
        (r == RecvErrorKind::WouldBlock) == (kind == ErrorKind::WouldBlock),
        (r == RecvErrorKind::ConnectionReset) == (kind == ErrorKind::ConnectionReset),
        (r == RecvErrorKind::ConnectionRefused) == (kind == ErrorKind::ConnectionRefused),
        (r == RecvErrorKind::Interrupted) == (kind == ErrorKind::Interrupted),
{
    match kind {
        ErrorKind::WouldBlock => RecvErrorKind::WouldBlock,
        ErrorKind::ConnectionReset => RecvErrorKind::ConnectionReset,
        ErrorKind::ConnectionRefused => RecvErrorKind::ConnectionRefused,
        ErrorKind::Interrupted => RecvErrorKind::Interrupted,
        _ => RecvErrorKind::Other,
    }
}

/// Whether a receive error of this kind ends the batch quietly: exactly the
/// four transient kinds do.
pub fn is_transient_recv(kind: ErrorKind) -> (b: bool)
    ensures
        b == (kind == ErrorKind::WouldBlock || kind == ErrorKind::ConnectionReset
            || kind == ErrorKind::ConnectionRefused || kind == ErrorKind::Interrupted),
{
    is_transient_kind(classify_recv_error(kind))
}

} // verus!
