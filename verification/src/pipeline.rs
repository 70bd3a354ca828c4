//! What one datagram does to a queue and to the slot of its destination,
//! once the dice are cast.

use crate::conditions::Draw;
use crate::network::Endpoint;
use crate::network::PacketView;
use crate::queue::all_for;
use crate::queue::ascending;
use crate::queue::due;
use crate::queue::lemma_placed_for;
use crate::queue::lemma_placed;
use crate::queue::placed;
use vstd::prelude::*;

verus! {

/// The packet that carries `payload` to `dest` at `sent_date`.
pub open spec fn packet_at(payload: Seq<u8>, dest: Endpoint, sent_date: nat) -> PacketView {
    PacketView { buffer: payload, dest, sent_date }
}

/// The queue and the slot after a datagram with the given draw.
///
/// A datagram that does not arrive changes nothing. One that arrives first
/// leaves its copy in the queue, if it is sent twice. Then, where the slot is
/// empty, it is held back in the slot if so drawn, and else goes into the
/// queue at its time. Where the slot holds a packet, that packet goes into
/// the queue at its own time, the datagram behind it with the further delay
/// added to its time, and the slot is empty.
pub open spec fn injected(
    queue: Seq<PacketView>,
    held: Option<PacketView>,
    payload: Seq<u8>,
    dest: Endpoint,
    draw: Draw,
) -> (Seq<PacketView>, Option<PacketView>) {
    if !draw.arrived {
        (queue, held)
    } else {
        let copied = match draw.duplicate {
            Some(t) => placed(queue, packet_at(payload, dest, t as nat)),
            None => queue,
        };
        match held {
            None => if draw.reordered {
                (copied, Some(packet_at(payload, dest, draw.sent_date as nat)))
            } else {
                (placed(copied, packet_at(payload, dest, draw.sent_date as nat)), None)
            },
            Some(earlier) => (
                placed(
                    placed(copied, earlier),
                    packet_at(payload, dest, (draw.sent_date + draw.extra_delay) as nat),
                ),
                None,
            ),
        }
    }
}

/// The queue and the slot hold packets for `dest` only.
pub open spec fn bound_for(queue: Seq<PacketView>, held: Option<PacketView>, dest: Endpoint)
    -> bool {
    all_for(queue, dest) && (held matches Some(earlier) ==> earlier.dest == dest)
}

/// Whatever is drawn, the queue stays in the order of its times, and a queue
/// and a slot that hold packets for `dest` only go on to do so.
pub proof fn lemma_injected(
    queue: Seq<PacketView>,
    held: Option<PacketView>,
    payload: Seq<u8>,
    dest: Endpoint,
    draw: Draw,
)
    requires
        ascending(queue),
    ensures
        ascending(injected(queue, held, payload, dest, draw).0),
        bound_for(queue, held, dest) ==> bound_for(
            injected(queue, held, payload, dest, draw).0,
            injected(queue, held, payload, dest, draw).1,
            dest,
        ),
{
    if draw.arrived {
        let copied = match draw.duplicate {
            Some(t) => placed(queue, packet_at(payload, dest, t as nat)),
            None => queue,
        };
        if let Some(t) = draw.duplicate {
            lemma_placed(queue, packet_at(payload, dest, t as nat));
            if bound_for(queue, held, dest) {
                lemma_placed_for(queue, packet_at(payload, dest, t as nat), dest);
            }
        }
        match held {
            None => {
                let current = packet_at(payload, dest, draw.sent_date as nat);
                lemma_placed(copied, current);
                if bound_for(queue, held, dest) {
                    lemma_placed_for(copied, current, dest);
                }
            },
            Some(earlier) => {
                let current = packet_at(
                    payload,
                    dest,
                    (draw.sent_date + draw.extra_delay) as nat,
                );
                lemma_placed(copied, earlier);
                lemma_placed(placed(copied, earlier), current);
                if bound_for(queue, held, dest) {
                    lemma_placed_for(copied, earlier, dest);
                    lemma_placed_for(placed(copied, earlier), current, dest);
                }
            },
        }
    }
}

/// A datagram that arrives and is neither sent twice nor held back, with no
/// packet waiting in the slot, puts exactly one packet into the queue.
pub proof fn lemma_sent_once(queue: Seq<PacketView>, payload: Seq<u8>, dest: Endpoint, draw: Draw)
    requires
        ascending(queue),
        draw.arrived,
        draw.duplicate is None,
        !draw.reordered,
    ensures
        ({
            let (after, held) = injected(queue, None, payload, dest, draw);
            &&& held is None
            &&& after.len() == queue.len() + 1
            &&& after.to_multiset() == queue.to_multiset().insert(
                packet_at(payload, dest, draw.sent_date as nat),
            )
        }),
{
    lemma_placed(queue, packet_at(payload, dest, draw.sent_date as nat));
}

/// A datagram that arrives and is sent twice, and is not held back, with no
/// packet waiting in the slot, puts exactly two packets into the queue: they
/// have the same payload and the same destination, and the two times drawn.
/// Where the two times differ, so do the two packets.
pub proof fn lemma_sent_twice(
    queue: Seq<PacketView>,
    payload: Seq<u8>,
    dest: Endpoint,
    draw: Draw,
    copy_date: u128,
)
    requires
        ascending(queue),
        draw.arrived,
        draw.duplicate == Some(copy_date),
        copy_date != draw.sent_date,
        !draw.reordered,
    ensures
        ({
            let (after, held) = injected(queue, None, payload, dest, draw);
            let sent = packet_at(payload, dest, draw.sent_date as nat);
            let copy = packet_at(payload, dest, copy_date as nat);
            &&& held is None
            &&& after.len() == queue.len() + 2
            &&& after.to_multiset() == queue.to_multiset().insert(copy).insert(sent)
            &&& sent.buffer == copy.buffer
            &&& sent.sent_date != copy.sent_date
        }),
{
    let copy = packet_at(payload, dest, copy_date as nat);
    lemma_placed(queue, copy);
    lemma_placed(placed(queue, copy), packet_at(payload, dest, draw.sent_date as nat));
}

/// A datagram that arrives while a packet waits in the slot sets that packet
/// free and leaves the slot empty. Where the time of the packet set free is
/// before the time that the datagram gets with its further delay, both are in
/// the queue, and the packet set free stands before the datagram.
pub proof fn lemma_released_first(
    queue: Seq<PacketView>,
    earlier: PacketView,
    payload: Seq<u8>,
    dest: Endpoint,
    draw: Draw,
)
    requires
        ascending(queue),
        draw.arrived,
        earlier.sent_date < draw.sent_date + draw.extra_delay,
    ensures
        ({
            let (after, held) = injected(queue, Some(earlier), payload, dest, draw);
            let current = packet_at(payload, dest, (draw.sent_date + draw.extra_delay) as nat);
            &&& held is None
            &&& after.contains(earlier)
            &&& after.contains(current)
            &&& forall|i: int, j: int|
                0 <= i < after.len() && 0 <= j < after.len() && after[i] == earlier && after[j]
                    == current ==> i < j
        }),
{
    let copied = match draw.duplicate {
        Some(t) => placed(queue, packet_at(payload, dest, t as nat)),
        None => queue,
    };
    if let Some(t) = draw.duplicate {
        lemma_placed(queue, packet_at(payload, dest, t as nat));
    }
    let current = packet_at(payload, dest, (draw.sent_date + draw.extra_delay) as nat);
    let freed = placed(copied, earlier);
    lemma_placed(copied, earlier);
    lemma_placed(freed, current);
    let after = placed(freed, current);
    let at = due(copied, earlier.sent_date).len() as int;
    let to = due(freed, current.sent_date).len() as int;
    assert(freed[at] == earlier);
    assert(after[to] == current);
    assert(after[if at < to { at } else { at + 1 }] == earlier);
    assert forall|i: int, j: int|
        0 <= i < after.len() && 0 <= j < after.len() && after[i] == earlier && after[j]
            == current implies i < j by {
        if j <= i {
            assert(after[j].sent_date <= after[i].sent_date);
        }
    }
}

} // verus!
