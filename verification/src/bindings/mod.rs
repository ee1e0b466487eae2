//! The shadow copies of server entities that plugins read and change, and
//! how their changes are taken and applied.
use vstd::prelude::*;

pub mod level;
pub mod player;

verus! {

/// The view of an optional value.
pub open spec fn option_view<C: View>(c: Option<C>) -> Option<C::V> {
    match c {
        Some(x) => Some(x@),
        None => None,
    }
}

/// An entity whose changes are sent to the server and whose server-side
/// changes are applied to it.
pub trait Syncable: Sized + View {
    /// What changed since the last exchange.
    type Change: View;

    /// The entity after its pending changes are taken, and the change set
    /// taken, if anything changed.
    spec fn encode_spec(v: Self::V, universal_id: u64) -> (Self::V, Option<<Self::Change as View>::V>);

    /// Whether the entity applies changes that come from the server.
    spec fn decodable(v: Self::V) -> bool;

    /// The entity after a server-side change is applied.
    spec fn decode_spec(v: Self::V, change: Self::Change) -> Self::V;

    /// Takes the pending changes, if anything changed.
    fn encode_changes(&mut self, universal_id: u64) -> (r: Option<Self::Change>)
        ensures
            (final(self)@, option_view(r)) == Self::encode_spec(old(self)@, universal_id),
    ;

    /// Applies a change that comes from the server.
    fn decode_changes(&mut self, change: Self::Change)
        requires
            Self::decodable(old(self)@),
        ensures
            final(self)@ == Self::decode_spec(old(self)@, change),
    ;
}

} // verus!
