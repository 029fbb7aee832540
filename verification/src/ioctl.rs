//! I/O control requests.

use vstd::prelude::*;

verus! {

/// The request for the number of bytes in a buffer.
pub const FIONREAD: u32 = 0x541b;

/// An I/O control request.
#[derive(Clone, Copy, PartialEq, Eq, Structural, Debug)]
pub struct Request {
    /// The major number: the family of the request.
    pub major: u8,
    /// The minor number: the request within its family.
    pub minor: u8,
}

/// The number of the request with the given major and minor numbers.
pub open spec fn old_format(request: Request) -> u32 {
    (request.major * 0x100 + request.minor) as u32
}

impl Request {
    /// Returns the number of the request in the old format.
    pub fn get_old_format(&self) -> (n: u32)
        ensures
            n == old_format(*self),
    {
        self.major as u32 * 0x100 + self.minor as u32
    }
}

/// A request and its number in the old format are the same thing: the number holds the minor number
/// in its lowest byte, the major one in the byte above, and nothing else.
pub proof fn law_old_format_holds_the_request(request: Request, other: Request)
    ensures
        old_format(request) % 0x100 == request.minor,
        old_format(request) / 0x100 == request.major,
        old_format(request) == old_format(other) ==> request == other,
        old_format(request) == FIONREAD <==> request.major == 0x54 && request.minor == 0x1b,
{
}

/// The number of a request is made of exactly its major and minor numbers.
pub proof fn law_old_format_answer(request: &Request, n: u32)
    requires
        call_ensures(Request::get_old_format, (request,), n),
    ensures
        n / 0x100 == request.major,
        n % 0x100 == request.minor,
{
}

} // verus!
