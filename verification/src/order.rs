//! How two packets compare: by their times alone, the earlier one being the
//! greater, so that a sort puts the packet to send next at the end.

use crate::network::Packet;
use core::cmp::Ordering;
use vstd::prelude::*;
use vstd::std_specs::cmp::PartialEqSpecImpl;
use vstd::std_specs::cmp::PartialOrdSpecImpl;

verus! {

impl Packet {
    /// How this packet stands to the other: greater where it is due earlier,
    /// less where it is due later, equal where both are due at the same time.
    pub open spec fn order_to(&self, other: &Packet) -> Ordering {
        if self.sent_date < other.sent_date {
            Ordering::Greater
        } else if self.sent_date > other.sent_date {
            Ordering::Less
        } else {
            Ordering::Equal
        }
    }

    /// Compares two packets by their times, the earlier one being the
    /// greater. Packets due at the same time are equal here: the queue tells
    /// them apart by their coming.
    pub fn cmp(&self, other: &Packet) -> (order: Ordering)
        ensures
            order == self.order_to(other),
    {
        if self.sent_date < other.sent_date {
            Ordering::Greater
        } else if self.sent_date > other.sent_date {
            Ordering::Less
        } else {
            Ordering::Equal
        }
    }
}

impl PartialEq for Packet {
    /// Two packets are equal where they are due at the same time.
    fn eq(&self, other: &Packet) -> (equal: bool) {
        self.sent_date == other.sent_date
    }
}

impl PartialEqSpecImpl for Packet {
    open spec fn obeys_eq_spec() -> bool {
        true
    }

    open spec fn eq_spec(&self, other: &Packet) -> bool {
        self.sent_date == other.sent_date
    }
}

impl Eq for Packet {

}

impl PartialOrd for Packet {
    fn partial_cmp(&self, other: &Packet) -> (order: Option<Ordering>) {
        Some(self.cmp(other))
    }
}

impl PartialOrdSpecImpl for Packet {
    open spec fn obeys_partial_cmp_spec() -> bool {
        true
    }

    open spec fn partial_cmp_spec(&self, other: &Packet) -> Option<Ordering> {
        Some(self.order_to(other))
    }
}

} // verus!
