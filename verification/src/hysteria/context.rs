//! What a caller says of a connection that it asks for.

use vstd::prelude::*;

use crate::text::Text;

verus! {

/// What a caller says of a connection.
pub trait ContextValues {
    /// Whether UDP is to be passed on.
    spec fn wants_datagrams(&self) -> bool;

    /// The secret of the caller.
    spec fn secret(&self) -> Option<Text>;

    /// Whether UDP is to be passed on.
    fn datagram(&self) -> (b: bool)
        ensures
            b == self.wants_datagrams(),
    ;

    /// The secret of the caller.
    fn auth_secret(&self) -> (s: Option<&str>)
        ensures
            match s {
                Some(text) => self.secret() == Some(text@),
                None => self.secret() is None,
            },
    ;
}

/// Something that can be told whether UDP is to be passed on.
pub trait ContextWithDatagram: Sized {
    /// What it becomes.
    type Ctx: ContextValues;

    /// Passes UDP on, or does not.
    fn with_datagram(self, v: bool) -> (c: Self::Ctx)
        ensures
            c.wants_datagrams() == v,
    ;
}

/// Something that says whether UDP is to be passed on.
pub trait DatagramFromContext {
    /// Whether UDP is to be passed on.
    spec fn passes_datagrams(&self) -> bool;

    /// Whether UDP is to be passed on.
    fn datagram_from(&self) -> (b: bool)
        ensures
            b == self.passes_datagrams(),
    ;
}

impl<T: ContextValues> DatagramFromContext for T {
    open spec fn passes_datagrams(&self) -> bool {
        self.wants_datagrams()
    }

    fn datagram_from(&self) -> (b: bool) {
        self.datagram()
    }
}

/// Something that can be told a secret.
pub trait ContextWithValidator: Sized {
    /// What it becomes.
    type Ctx: ContextValues;

    /// Has that secret.
    fn with_validator(self, secret: &str) -> (c: Self::Ctx)
        ensures
            c.secret() == Some(secret@),
    ;
}

} // verus!
