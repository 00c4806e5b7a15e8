//! Order routing: hands a verified order to the venue its signal
//! names. A single-venue route today; the contract pins exactly what
//! is routed where.

use vstd::prelude::*;
use crate::types::{Venue, VerifiedOrder};

verus! {

/// The router.
pub struct OrderRouter;

impl OrderRouter {
    /// Routes an order to its signal's venue, unchanged.
    pub fn route_order(&self, order: VerifiedOrder) -> (r: Vec<(Venue, VerifiedOrder)>)
        ensures
            r@.len() == 1,
            r@[0].0@ == order.signal.venue@,
            r@[0].1 == order,
    {
        let venue = order.signal.venue.clone();
        let mut out: Vec<(Venue, VerifiedOrder)> = Vec::new();
        out.push((venue, order));
        out
    }
}

} // verus!
