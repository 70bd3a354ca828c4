//! The store of delayed packets: ordered by the time at which each is due,
//! and among packets due at the same time by the order in which they came.

use crate::network::views;
use crate::network::Endpoint;
use crate::network::Packet;
use crate::network::PacketView;
use vstd::prelude::*;

verus! {

/// The packets are in the order of their times.
pub open spec fn ascending(s: Seq<PacketView>) -> bool {
    forall|i: int, j: int| 0 <= i <= j < s.len() ==> s[i].sent_date <= s[j].sent_date
}

/// Every packet of `s` is for `dest`.
pub open spec fn all_for(s: Seq<PacketView>, dest: Endpoint) -> bool {
    forall|i: int| 0 <= i < s.len() ==> (#[trigger] s[i]).dest == dest
}

/// The test for being due at `now`.
pub open spec fn is_due(now: nat) -> spec_fn(PacketView) -> bool {
    |p: PacketView| p.sent_date <= now
}

/// The test for not yet being due at `now`.
pub open spec fn is_pending(now: nat) -> spec_fn(PacketView) -> bool {
    |p: PacketView| p.sent_date > now
}

/// The packets of `s` that are due at `now`, in the order they have in `s`.
pub open spec fn due(s: Seq<PacketView>, now: nat) -> Seq<PacketView> {
    s.filter(is_due(now))
}

/// The packets of `s` that are not yet due at `now`, in the order they have
/// in `s`.
pub open spec fn pending(s: Seq<PacketView>, now: nat) -> Seq<PacketView> {
    s.filter(is_pending(now))
}

/// `s` with `p` put in: behind every packet that is due no later than `p`,
/// so behind those of its own time, and before every packet due later.
pub open spec fn placed(s: Seq<PacketView>, p: PacketView) -> Seq<PacketView> {
    due(s, p.sent_date).push(p) + pending(s, p.sent_date)
}

/// How long one may wait for work on `s` at `now` when one is willing to
/// wait for `timeout`: not at all where a packet is due, else until the
/// first packet is due or the timeout is over, whichever comes first.
pub open spec fn wait(s: Seq<PacketView>, now: nat, timeout: nat) -> nat {
    if s.len() == 0 {
        timeout
    } else if s[0].sent_date <= now {
        0
    } else if s[0].sent_date - now < timeout {
        (s[0].sent_date - now) as nat
    } else {
        timeout
    }
}

proof fn lemma_filter_all<A>(s: Seq<A>, pred: spec_fn(A) -> bool)
    requires
        forall|i: int| 0 <= i < s.len() ==> pred(#[trigger] s[i]),
    ensures
        s.filter(pred) == s,
    decreases s.len(),
{
    reveal(Seq::filter);
    if s.len() > 0 {
        lemma_filter_all(s.drop_last(), pred);
        assert(s.drop_last().push(s.last()) =~= s);
    }
}

proof fn lemma_filter_none<A>(s: Seq<A>, pred: spec_fn(A) -> bool)
    requires
        forall|i: int| 0 <= i < s.len() ==> !pred(#[trigger] s[i]),
    ensures
        s.filter(pred) == Seq::<A>::empty(),
    decreases s.len(),
{
    reveal(Seq::filter);
    if s.len() > 0 {
        lemma_filter_none(s.drop_last(), pred);
    }
}

/// Where every packet before `k` is due at `now` and none from `k` on is,
/// the due packets are those before `k` and the pending ones the rest.
pub proof fn lemma_split_at(s: Seq<PacketView>, k: int, now: nat)
    requires
        0 <= k <= s.len(),
        forall|i: int| 0 <= i < k ==> (#[trigger] s[i]).sent_date <= now,
        forall|i: int| k <= i < s.len() ==> (#[trigger] s[i]).sent_date > now,
    ensures
        due(s, now) == s.subrange(0, k),
        pending(s, now) == s.subrange(k, s.len() as int),
{
    let head = s.subrange(0, k);
    let tail = s.subrange(k, s.len() as int);
    assert(s =~= head + tail);
    Seq::filter_distributes_over_add(head, tail, is_due(now));
    Seq::filter_distributes_over_add(head, tail, is_pending(now));
    lemma_filter_all(head, is_due(now));
    lemma_filter_none(tail, is_due(now));
    lemma_filter_none(head, is_pending(now));
    lemma_filter_all(tail, is_pending(now));
    assert(head + Seq::<PacketView>::empty() =~= head);
    assert(Seq::<PacketView>::empty() + tail =~= tail);
}

/// In a queue in the order of its times the due packets stand first: they are
/// the first `due(s, now).len()` packets, and the pending ones are the rest.
pub proof fn lemma_due_first(s: Seq<PacketView>, now: nat)
    requires
        ascending(s),
    ensures
        due(s, now).len() + pending(s, now).len() == s.len(),
        due(s, now) == s.take(due(s, now).len() as int),
        pending(s, now) == s.skip(due(s, now).len() as int),
        forall|i: int|
            0 <= i < s.len() ==> ((#[trigger] s[i]).sent_date <= now <==> i < due(s, now).len()),
        ascending(due(s, now)),
        ascending(pending(s, now)),
    decreases s.len(),
{
    lemma_due_first_part(s, now);
    let k = due(s, now).len() as int;
    assert forall|i: int, j: int| 0 <= i <= j < s.take(k).len() implies s.take(k)[i].sent_date
        <= s.take(k)[j].sent_date by {
        assert(s.take(k)[i] == s[i]);
        assert(s.take(k)[j] == s[j]);
    }
    assert forall|i: int, j: int| 0 <= i <= j < s.skip(k).len() implies s.skip(k)[i].sent_date
        <= s.skip(k)[j].sent_date by {
        assert(s.skip(k)[i] == s[k + i]);
        assert(s.skip(k)[j] == s[k + j]);
    }
}

proof fn lemma_due_first_part(s: Seq<PacketView>, now: nat)
    requires
        ascending(s),
    ensures
        due(s, now).len() + pending(s, now).len() == s.len(),
        due(s, now) == s.take(due(s, now).len() as int),
        pending(s, now) == s.skip(due(s, now).len() as int),
        forall|i: int|
            0 <= i < s.len() ==> ((#[trigger] s[i]).sent_date <= now <==> i < due(s, now).len()),
    decreases s.len(),
{
    reveal(Seq::filter);
    if s.len() == 0 {
        assert(s.take(0) =~= s);
        assert(s.skip(0) =~= s);
    } else if s.last().sent_date <= now {
        lemma_split_at(s, s.len() as int, now);
        assert(s.subrange(0, s.len() as int) =~= s);
        assert(s.take(s.len() as int) =~= s);
        assert(s.skip(s.len() as int) =~= s.subrange(s.len() as int, s.len() as int));
    } else {
        let front = s.drop_last();
        lemma_due_first_part(front, now);
        let k = due(front, now).len() as int;
        assert(due(s, now) == due(front, now));
        assert(pending(s, now) == pending(front, now).push(s.last()));
        assert(front.take(k) =~= s.take(k));
        assert(front.skip(k).push(s.last()) =~= s.skip(k));
        assert forall|i: int| 0 <= i < s.len() implies ((#[trigger] s[i]).sent_date <= now <==> i
            < k) by {
            if i < front.len() {
                assert(s[i] == front[i]);
            }
        }
    }
}

/// Taking the due packets out loses none and makes none twice: the packets
/// taken and the packets left are together the packets that were there.
pub proof fn lemma_nothing_lost(s: Seq<PacketView>, now: nat)
    ensures
        due(s, now).to_multiset().add(pending(s, now).to_multiset()) == s.to_multiset(),
    decreases s.len(),
{
    broadcast use vstd::multiset::group_multiset_axioms;

    reveal(Seq::filter);
    if s.len() == 0 {
        vstd::seq_lib::to_multiset_len(s);
        assert(s.to_multiset() =~= vstd::multiset::Multiset::<PacketView>::empty());
        assert(due(s, now).to_multiset().add(pending(s, now).to_multiset()) =~= s.to_multiset());
    } else {
        let front = s.drop_last();
        lemma_nothing_lost(front, now);
        assert(front.push(s.last()) =~= s);
        vstd::seq_lib::to_multiset_build(front, s.last());
        vstd::seq_lib::to_multiset_build(due(front, now), s.last());
        vstd::seq_lib::to_multiset_build(pending(front, now), s.last());
        assert(due(s, now).to_multiset().add(pending(s, now).to_multiset()) =~= s.to_multiset());
    }
}

/// What was left at `now` holds nothing that is due at `now` or before: a
/// packet that has been taken out is not handed out again.
pub proof fn lemma_taken_once(s: Seq<PacketView>, now: nat, again: nat)
    requires
        again <= now,
    ensures
        due(pending(s, now), again) == Seq::<PacketView>::empty(),
        pending(pending(s, now), again) == pending(s, now),
{
    broadcast use vstd::seq_lib::group_filter_ensures;

    let left = pending(s, now);
    assert forall|i: int| 0 <= i < left.len() implies (#[trigger] left[i]).sent_date > again by {
        assert(is_pending(now)(left[i]));
    }
    lemma_split_at(left, 0, again);
    assert(left.subrange(0, 0) =~= Seq::<PacketView>::empty());
    assert(left.subrange(0, left.len() as int) =~= left);
}

/// Taking the due packets out at `now` and then again at a later time hands
/// out, one after the other, what taking them out once at the later time
/// hands out, and leaves what that leaves.
pub proof fn lemma_taken_in_turn(s: Seq<PacketView>, now: nat, later: nat)
    requires
        ascending(s),
        now <= later,
    ensures
        due(s, now) + due(pending(s, now), later) == due(s, later),
        pending(pending(s, now), later) == pending(s, later),
{
    lemma_due_first(s, now);
    lemma_due_first(s, later);
    let k = due(s, now).len() as int;
    let m = due(s, later).len() as int;
    let left = pending(s, now);
    if m < k {
        assert(s[m].sent_date <= now);
    }
    assert forall|i: int| 0 <= i < m - k implies (#[trigger] left[i]).sent_date <= later by {
        assert(left[i] == s[k + i]);
    }
    assert forall|i: int| m - k <= i < left.len() implies (#[trigger] left[i]).sent_date
        > later by {
        assert(left[i] == s[k + i]);
    }
    lemma_split_at(left, m - k, later);
    assert(s.take(k) + left.subrange(0, m - k) =~= s.take(m));
    assert(left.subrange(m - k, left.len() as int) =~= s.skip(m));
}

/// Putting a packet in adds that packet and nothing else, keeps every packet
/// that was there, also one of the same time, and keeps the order of times.
/// The packet stands behind those that were there and are due no later, and
/// before the others.
pub proof fn lemma_placed(s: Seq<PacketView>, p: PacketView)
    requires
        ascending(s),
    ensures
        placed(s, p) == s.insert(due(s, p.sent_date).len() as int, p),
        forall|i: int|
            0 <= i < s.len() ==> ((#[trigger] s[i]).sent_date <= p.sent_date <==> i < due(
                s,
                p.sent_date,
            ).len()),
        placed(s, p).len() == s.len() + 1,
        placed(s, p).to_multiset() == s.to_multiset().insert(p),
        ascending(placed(s, p)),
{
    lemma_due_first(s, p.sent_date);
    let k = due(s, p.sent_date).len() as int;
    let t = placed(s, p);
    assert(t =~= s.insert(k, p));
    vstd::seq_lib::to_multiset_insert(s, k, p);
    assert forall|i: int, j: int| 0 <= i <= j < t.len() implies t[i].sent_date
        <= t[j].sent_date by {
        let a = if i < k { s[i] } else if i == k { p } else { s[i - 1] };
        let b = if j < k { s[j] } else if j == k { p } else { s[j - 1] };
        assert(t[i] == a);
        assert(t[j] == b);
    }
}

/// A queue of packets for one destination holds packets for that
/// destination only after one more for it is put in.
pub proof fn lemma_placed_for(s: Seq<PacketView>, p: PacketView, dest: Endpoint)
    requires
        ascending(s),
        all_for(s, dest),
        p.dest == dest,
    ensures
        all_for(placed(s, p), dest),
{
    lemma_placed(s, p);
    let k = due(s, p.sent_date).len() as int;
    let t = placed(s, p);
    assert forall|i: int| 0 <= i < t.len() implies (#[trigger] t[i]).dest == dest by {
        let a = if i < k { s[i] } else if i == k { p } else { s[i - 1] };
        assert(t[i] == a);
    }
}

/// The packets taken out of a queue of packets for one destination are for
/// that destination, and so are the packets left in it.
pub proof fn lemma_taken_for(s: Seq<PacketView>, now: nat, dest: Endpoint)
    requires
        ascending(s),
        all_for(s, dest),
    ensures
        all_for(due(s, now), dest),
        all_for(pending(s, now), dest),
{
    lemma_due_first(s, now);
}

/// Putting a packet in and then taking out what is due at `now` gives what
/// taking out first and putting in afterwards gives: a packet that is not
/// yet due is left in the queue and nothing more is handed out for it, and a
/// packet that is due is handed out, behind the others due by its time.
pub proof fn lemma_placed_then_taken(s: Seq<PacketView>, p: PacketView, now: nat)
    requires
        ascending(s),
    ensures
        p.sent_date > now ==> due(placed(s, p), now) == due(s, now) && pending(placed(s, p), now)
            == placed(pending(s, now), p),
        p.sent_date <= now ==> due(placed(s, p), now) == placed(due(s, now), p) && pending(
            placed(s, p),
            now,
        ) == pending(s, now),
{
    lemma_placed(s, p);
    lemma_due_first(s, now);
    lemma_due_first(s, p.sent_date);
    let t = placed(s, p);
    let k = due(s, p.sent_date).len() as int;
    let m = due(s, now).len() as int;
    assert forall|i: int| 0 <= i < t.len() implies (#[trigger] t[i]) == (if i < k {
        s[i]
    } else if i == k {
        p
    } else {
        s[i - 1]
    }) by {}
    if p.sent_date > now {
        if k < m {
            assert(s[k].sent_date <= now);
        }
        lemma_split_at(t, m, now);
        let left = pending(s, now);
        lemma_placed(left, p);
        lemma_due_first(left, p.sent_date);
        let r = due(left, p.sent_date).len() as int;
        if r < k - m {
            assert(left[r] == s[m + r]);
        }
        if r > k - m {
            assert(left[k - m] == s[k]);
        }
        assert(t.subrange(0, m) =~= s.take(m));
        assert(t.subrange(m, t.len() as int) =~= left.insert(r, p));
    } else {
        if m < k {
            assert(s[m].sent_date <= p.sent_date);
        }
        lemma_split_at(t, m + 1, now);
        let taken = due(s, now);
        lemma_placed(taken, p);
        lemma_due_first(taken, p.sent_date);
        let r = due(taken, p.sent_date).len() as int;
        if r < k {
            assert(taken[r] == s[r]);
        }
        if r > k {
            assert(taken[k] == s[k]);
        }
        assert(t.subrange(0, m + 1) =~= taken.insert(r, p));
        assert(t.subrange(m + 1, t.len() as int) =~= s.skip(m));
    }
}

/// A packet in the queue, with the number that orders it among the packets
/// of its own time.
struct Entry {
    packet: Packet,
    seq: u128,
}

/// The key of `a` is below the key of `b`: the time first, then the number.
spec fn key_below(a: Entry, b: Entry) -> bool {
    a.packet.sent_date < b.packet.sent_date || (a.packet.sent_date == b.packet.sent_date && a.seq
        < b.seq)
}

impl Entry {
    /// Whether the key of this entry is below the key made of the time and
    /// the number given.
    fn comes_before(&self, sent_date: u128, seq: u128) -> (before: bool)
        ensures
            before == (self.packet.sent_date < sent_date || (self.packet.sent_date == sent_date
                && self.seq < seq)),
    {
        self.packet.sent_date < sent_date || (self.packet.sent_date == sent_date && self.seq < seq)
    }
}

/// Packets on their way, each kept until its time has come.
pub struct DelayQueue {
    entries: Vec<Entry>,
    next_seq: u128,
}

impl View for DelayQueue {
    type V = Seq<PacketView>;

    /// The packets in the order in which they will leave.
    closed spec fn view(&self) -> Seq<PacketView> {
        self.entries@.map_values(|e: Entry| e.packet@)
    }
}

impl DelayQueue {
    /// The keys rise strictly along the queue, so no two packets share one,
    /// and every number handed out is below the next one.
    pub closed spec fn wf(&self) -> bool {
        &&& forall|i: int, j: int|
            0 <= i < j < self.entries.len() ==> key_below(
                #[trigger] self.entries[i],
                #[trigger] self.entries[j],
            )
        &&& forall|i: int|
            0 <= i < self.entries.len() ==> (#[trigger] self.entries[i]).seq < self.next_seq
    }

    /// A queue that is well formed holds its packets in the order of their
    /// times.
    pub proof fn lemma_ascending(&self)
        requires
            self.wf(),
        ensures
            ascending(self@),
    {
        assert forall|i: int, j: int| 0 <= i <= j < self@.len() implies self@[i].sent_date
            <= self@[j].sent_date by {
            if i < j {
                assert(key_below(self.entries[i], self.entries[j]));
            }
        }
    }

    pub fn new() -> (queue: DelayQueue)
        ensures
            queue.wf(),
            queue@ == Seq::<PacketView>::empty(),
    {
        let queue = DelayQueue { entries: Vec::new(), next_seq: 0 };
        assert(queue@ =~= Seq::<PacketView>::empty());
        queue
    }

    pub fn len(&self) -> (len: usize)
        ensures
            len == self@.len(),
    {
        self.entries.len()
    }

    pub fn is_empty(&self) -> (empty: bool)
        ensures
            empty == (self@.len() == 0),
    {
        self.entries.len() == 0
    }

    /// The time at which the next packet is due, if there is one.
    pub fn next_deadline(&self) -> (deadline: Option<u128>)
        ensures
            self@.len() == 0 ==> deadline is None,
            self@.len() > 0 ==> deadline == Some(self@[0].sent_date as u128),
    {
        if self.entries.len() == 0 {
            None
        } else {
            Some(self.entries[0].packet.sent_date)
        }
    }

    /// How long the caller may block at `now` before it looks for due
    /// packets again, when nothing that is put in wakes it earlier: until the
    /// next packet is due, and no longer than `timeout`.
    pub fn wait_for_work(&self, now: u128, timeout: u128) -> (nanos: u128)
        ensures
            nanos == wait(self@, now as nat, timeout as nat),
    {
        match self.next_deadline() {
            None => timeout,
            Some(deadline) => if deadline <= now {
                0
            } else if deadline - now < timeout {
                deadline - now
            } else {
                timeout
            },
        }
    }

    /// Numbers the entries anew from zero, in the order they have.
    fn renumber(&mut self)
        requires
            old(self).wf(),
        ensures
            final(self).wf(),
            final(self)@ == old(self)@,
            final(self).next_seq == old(self)@.len(),
    {
        let n: usize = self.entries.len();
        let mut i: usize = 0;
        while i < n
            invariant
                i <= n,
                n == self.entries.len(),
                self@ == old(self)@,
                forall|a: int, b: int|
                    0 <= a <= b < n ==> (#[trigger] self.entries[a]).packet.sent_date <= (
                    #[trigger] self.entries[b]).packet.sent_date,
                forall|a: int| 0 <= a < i ==> (#[trigger] self.entries[a]).seq == a,
            decreases n - i,
        {
            let ghost before = self.entries@;
            self.entries[i].seq = i as u128;
            assert(self@ =~= old(self)@) by {
                assert forall|a: int| 0 <= a < n implies self.entries[a].packet
                    == before[a].packet by {}
            }
            i += 1;
        }
        self.next_seq = n as u128;
    }

    /// Puts a packet into the queue. A packet due at a time that others in the
    /// queue share goes behind them: none is replaced.
    pub fn insert(&mut self, packet: Packet)
        requires
            old(self).wf(),
        ensures
            final(self).wf(),
            final(self)@ == placed(old(self)@, packet@),
    {
        if self.next_seq == u128::MAX {
            // Every number has been handed out: the packets that are left
            // get the first numbers anew.
            self.renumber();
        }
        let ghost before = self@;
        let seq: u128 = self.next_seq;
        let mut k: usize = self.entries.len();
        while k > 0 && !self.entries[k - 1].comes_before(packet.sent_date, seq)
            invariant
                k <= self.entries.len(),
                self.wf(),
                seq == self.next_seq,
                forall|i: int|
                    k <= i < self.entries.len() ==> (#[trigger] self.entries[i]).packet.sent_date
                        > packet.sent_date,
            decreases k,
        {
            k -= 1;
        }
        proof {
            assert forall|i: int| 0 <= i < k implies (#[trigger] self@[i]).sent_date
                <= packet@.sent_date by {
                if i < k - 1 {
                    assert(key_below(self.entries[i], self.entries[k - 1]));
                }
            }
            lemma_split_at(self@, k as int, packet@.sent_date);
        }
        let entry = Entry { packet, seq };
        self.next_seq = seq + 1;
        self.entries.insert(k, entry);
        proof {
            assert(self@ =~= before.subrange(0, k as int).push(packet@) + before.subrange(
                k as int,
                before.len() as int,
            ));
        }
    }

    /// Takes out the packets that are due at `now`, in the order of their
    /// times and, within one time, of their coming. The others stay.
    pub fn drain_ready(&mut self, now: u128) -> (ready: Vec<Packet>)
        requires
            old(self).wf(),
        ensures
            final(self).wf(),
            views(ready@) == due(old(self)@, now as nat),
            final(self)@ == pending(old(self)@, now as nat),
            ascending(views(ready@)),
    {
        let ghost before = self@;
        proof {
            self.lemma_ascending();
            lemma_due_first(self@, now as nat);
        }
        let n: usize = self.entries.len();
        let mut k: usize = 0;
        while k < n && self.entries[k].packet.sent_date <= now
            invariant
                k <= n,
                n == self.entries.len(),
                forall|i: int| 0 <= i < k ==> (#[trigger] self.entries[i]).packet.sent_date <= now,
            decreases n - k,
        {
            k += 1;
        }
        proof {
            assert forall|i: int| k <= i < n implies (#[trigger] self@[i]).sent_date > now by {
                if k < i {
                    assert(key_below(self.entries[k as int], self.entries[i]));
                }
            }
            lemma_split_at(self@, k as int, now as nat);
        }
        let mut taken: Vec<Entry> = self.entries.split_off(k);
        core::mem::swap(&mut self.entries, &mut taken);
        let ghost first = taken@;
        let mut ready: Vec<Packet> = Vec::new();
        for entry in it: taken
            invariant
                it.seq() == first,
                ready@.len() == it.index(),
                forall|j: int| 0 <= j < ready@.len() ==> (#[trigger] ready@[j]) == first[j].packet,
        {
            ready.push(entry.packet);
        }
        proof {
            assert(views(ready@) =~= before.subrange(0, k as int));
            assert(self@ =~= before.subrange(k as int, n as int));
        }
        ready
    }
}

} // verus!
