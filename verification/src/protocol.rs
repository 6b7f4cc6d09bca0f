use vstd::prelude::*;

verus! {

/// Default construction of the protocol-specific extension of a channel.
pub trait ChanExtDefault {
    fn new() -> Self where Self: core::marker::Sized;
}

/// Default construction of the protocol-specific extension of a user.
pub trait UserExtDefault {
    fn new() -> Self where Self: core::marker::Sized;
}

/// Default construction of the protocol-specific extension of a server.
pub trait ServExtDefault {
    fn new() -> Self where Self: core::marker::Sized;
}

/// Default construction of the protocol-specific extension of a channel
/// member.
pub trait MemberExtDefault {
    fn new() -> Self where Self: core::marker::Sized;
}

} // verus!
