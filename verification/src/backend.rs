//! The one capability that a platform has to offer: to produce the current
//! listeners.

use vstd::prelude::*;
use crate::error::BackendError;
use crate::model::{Listener, ListenerView};
use crate::unique::spec_views;

verus! {

/// A reading of the system's sockets and processes, from which the listeners
/// can be produced.
///
/// Which implementation a program uses is settled when it is built: the
/// queries are generic over it.
pub trait Backend {
    /// The listeners that this reading holds, in the order in which it gives
    /// them, or the error that makes the whole reading useless.
    spec fn spec_enumerate(&self) -> Result<Seq<ListenerView>, BackendError>;

    /// Produces the listeners. Nothing is kept between two calls.
    fn enumerate(&self) -> (r: Result<Vec<Listener>, BackendError>)
        ensures
            match self.spec_enumerate() {
                Ok(listeners) => r matches Ok(v) && spec_views(v@) == listeners,
                Err(e) => r == Err::<Vec<Listener>, BackendError>(e),
            },
    ;
}

} // verus!
