use netcond::conditions::Conditions;
use netcond::conditions::Draw;
use netcond::conditions::CERTAIN;
use netcond::network::Endpoint;
use netcond::network::Packet;
use netcond::proxy::Proxy;
use netcond::queue::DelayQueue;
use netcond::reorder::ReorderSlot;

const MS: u128 = 1_000_000;

fn dest() -> Endpoint {
    Endpoint::V4 { ip: 0x0a00_0002, port: 5000 }
}

fn plain(sent_date: u128) -> Draw {
    Draw { sent_date, arrived: true, duplicate: None, reordered: false, extra_delay: 0 }
}

#[test]
fn slot_holds_one_packet_and_gives_it_back() {
    let mut slot = ReorderSlot::new();
    assert!(slot.is_empty());
    assert!(slot.release().is_none());
    slot.hold(Packet::new(vec![1, 2], dest(), 77));
    assert!(!slot.is_empty());
    let packet = slot.release().unwrap();
    assert_eq!(packet.buffer, vec![1, 2]);
    assert_eq!(packet.dest, dest());
    assert_eq!(packet.sent_date, 77);
    assert!(slot.is_empty());
    assert!(slot.release().is_none());
}

#[test]
fn base_insert_keeps_a_packet_of_the_same_time() {
    let mut queue = DelayQueue::new();
    Proxy::queue_packet_base_static(&mut queue, vec![1], dest(), 500);
    Proxy::queue_packet_base_static(&mut queue, vec![2], dest(), 500);
    assert_eq!(queue.len(), 2);
    let ready = queue.drain_ready(500);
    assert_eq!(ready[0].buffer, vec![1]);
    assert_eq!(ready[1].buffer, vec![2]);
    assert_eq!(ready[0].dest, dest());
}

#[test]
fn plain_lag_delivers_once_and_not_before() {
    let conditions = Conditions::new(100, 0, 0, 0, 0);
    let t: u128 = 1_700_000_000_000_000_000;
    let sent_date = conditions.sent_date_with(t, 0);
    assert_eq!(sent_date, t + 100 * MS);
    let mut queue = DelayQueue::new();
    let mut slot = ReorderSlot::new();
    Proxy::queue_packet_with(&mut queue, &mut slot, vec![42], dest(), plain(sent_date));
    assert!(slot.is_empty());
    assert_eq!(queue.len(), 1);
    assert!(queue.drain_ready(t).is_empty());
    assert!(queue.drain_ready(t + 50 * MS).is_empty());
    assert!(queue.drain_ready(t + 100 * MS - 1).is_empty());
    let ready = queue.drain_ready(t + 100 * MS);
    assert_eq!(ready.len(), 1);
    assert_eq!(ready[0].buffer, vec![42]);
    assert_eq!(ready[0].sent_date, t + 100 * MS);
    assert!(queue.drain_ready(t + 100 * MS).is_empty());
    assert!(queue.drain_ready(t + 200 * MS).is_empty());
    assert!(queue.drain_ready(u128::MAX).is_empty());
}

#[test]
fn plain_lag_delivers_late_too() {
    let mut queue = DelayQueue::new();
    let mut slot = ReorderSlot::new();
    Proxy::queue_packet_with(&mut queue, &mut slot, vec![42], dest(), plain(100 * MS));
    let ready = queue.drain_ready(5_000 * MS);
    assert_eq!(ready.len(), 1);
    assert!(queue.drain_ready(5_001 * MS).is_empty());
}

#[test]
fn lost_datagram_changes_nothing() {
    let mut queue = DelayQueue::new();
    let mut slot = ReorderSlot::new();
    slot.hold(Packet::new(vec![9], dest(), 5));
    let draw = Draw {
        sent_date: 10,
        arrived: false,
        duplicate: Some(11),
        reordered: true,
        extra_delay: 3,
    };
    Proxy::queue_packet_with(&mut queue, &mut slot, vec![1], dest(), draw);
    assert!(queue.is_empty());
    assert_eq!(slot.release().unwrap().buffer, vec![9]);
}

#[test]
fn duplicated_datagram_is_queued_twice() {
    let mut queue = DelayQueue::new();
    let mut slot = ReorderSlot::new();
    let draw = Draw {
        sent_date: 300,
        arrived: true,
        duplicate: Some(200),
        reordered: false,
        extra_delay: 0,
    };
    Proxy::queue_packet_with(&mut queue, &mut slot, vec![7, 8, 9], dest(), draw);
    assert!(slot.is_empty());
    assert_eq!(queue.len(), 2);
    let ready = queue.drain_ready(1_000);
    assert_eq!(ready[0].sent_date, 200);
    assert_eq!(ready[1].sent_date, 300);
    assert_eq!(ready[0].buffer, vec![7, 8, 9]);
    assert_eq!(ready[1].buffer, vec![7, 8, 9]);
    assert_eq!(ready[0].dest, dest());
    assert_eq!(ready[1].dest, dest());
}

#[test]
fn duplicate_at_the_same_time_is_kept_too() {
    let mut queue = DelayQueue::new();
    let mut slot = ReorderSlot::new();
    let draw = Draw {
        sent_date: 300,
        arrived: true,
        duplicate: Some(300),
        reordered: false,
        extra_delay: 0,
    };
    Proxy::queue_packet_with(&mut queue, &mut slot, vec![5], dest(), draw);
    assert_eq!(queue.len(), 2);
    assert_eq!(queue.drain_ready(300).len(), 2);
}

#[test]
fn single_datagram_is_queued_once() {
    let mut queue = DelayQueue::new();
    let mut slot = ReorderSlot::new();
    Proxy::queue_packet_with(&mut queue, &mut slot, vec![5], dest(), plain(10));
    assert_eq!(queue.len(), 1);
    assert!(slot.is_empty());
}

#[test]
fn held_packet_leaves_before_the_next_one() {
    let mut queue = DelayQueue::new();
    let mut slot = ReorderSlot::new();
    let first = Draw {
        sent_date: 1_000,
        arrived: true,
        duplicate: None,
        reordered: true,
        extra_delay: 0,
    };
    Proxy::queue_packet_with(&mut queue, &mut slot, vec![1], dest(), first);
    assert!(queue.is_empty());
    assert!(!slot.is_empty());
    let second = Draw {
        sent_date: 900,
        arrived: true,
        duplicate: None,
        reordered: true,
        extra_delay: 250,
    };
    Proxy::queue_packet_with(&mut queue, &mut slot, vec![2], dest(), second);
    assert!(slot.is_empty());
    assert_eq!(queue.len(), 2);
    let ready = queue.drain_ready(u128::MAX);
    assert_eq!(ready[0].buffer, vec![1]);
    assert_eq!(ready[0].sent_date, 1_000);
    assert_eq!(ready[1].buffer, vec![2]);
    assert_eq!(ready[1].sent_date, 1_150);
    assert!(ready[0].sent_date < ready[1].sent_date);
}

#[test]
fn held_packet_of_the_same_time_leaves_first() {
    let mut queue = DelayQueue::new();
    let mut slot = ReorderSlot::new();
    slot.hold(Packet::new(vec![1], dest(), 400));
    let next = Draw {
        sent_date: 300,
        arrived: true,
        duplicate: None,
        reordered: false,
        extra_delay: 100,
    };
    Proxy::queue_packet_with(&mut queue, &mut slot, vec![2], dest(), next);
    let ready = queue.drain_ready(400);
    assert_eq!(ready.len(), 2);
    assert_eq!(ready[0].buffer, vec![1]);
    assert_eq!(ready[1].buffer, vec![2]);
}

#[test]
fn copy_of_a_held_datagram_is_queued_at_once() {
    let mut queue = DelayQueue::new();
    let mut slot = ReorderSlot::new();
    let draw = Draw {
        sent_date: 1_000,
        arrived: true,
        duplicate: Some(1_200),
        reordered: true,
        extra_delay: 0,
    };
    Proxy::queue_packet_with(&mut queue, &mut slot, vec![3], dest(), draw);
    assert_eq!(queue.len(), 1);
    assert_eq!(queue.next_deadline(), Some(1_200));
    let held = slot.release().unwrap();
    assert_eq!(held.sent_date, 1_000);
    assert_eq!(held.buffer, vec![3]);
}

#[test]
fn release_with_a_copy_queues_three() {
    let mut queue = DelayQueue::new();
    let mut slot = ReorderSlot::new();
    slot.hold(Packet::new(vec![1], dest(), 50));
    let draw = Draw {
        sent_date: 60,
        arrived: true,
        duplicate: Some(55),
        reordered: false,
        extra_delay: 10,
    };
    Proxy::queue_packet_with(&mut queue, &mut slot, vec![2], dest(), draw);
    assert!(slot.is_empty());
    let ready = queue.drain_ready(100);
    let times: Vec<u128> = ready.iter().map(|p| p.sent_date).collect();
    assert_eq!(times, vec![50, 55, 70]);
    assert_eq!(ready[0].buffer, vec![1]);
    assert_eq!(ready[1].buffer, vec![2]);
    assert_eq!(ready[2].buffer, vec![2]);
}

#[test]
fn total_loss_queues_nothing() {
    let conditions = Conditions::new(100, 10, CERTAIN, CERTAIN, CERTAIN);
    let mut queue = DelayQueue::new();
    let mut slot = ReorderSlot::new();
    for i in 0..2_000u32 {
        Proxy::queue_packet_static(
            &mut queue,
            &mut slot,
            i.to_le_bytes().to_vec(),
            dest(),
            conditions,
            u128::from(i),
        );
    }
    assert!(queue.is_empty());
    assert!(slot.is_empty());
}

#[test]
fn plain_link_queues_every_datagram_at_its_lag() {
    let conditions = Conditions::new(100, 0, 0, 0, 0);
    let mut queue = DelayQueue::new();
    let mut slot = ReorderSlot::new();
    for i in 0..1_000u128 {
        Proxy::queue_packet_static(&mut queue, &mut slot, vec![1], dest(), conditions, i);
    }
    assert!(slot.is_empty());
    assert!(queue.len() >= 990);
    assert!(queue.len() <= 1_000);
    assert!(queue.drain_ready(100 * MS - 1).is_empty());
    let ready = queue.drain_ready(100 * MS + 999);
    assert!(ready.len() >= 990);
    assert!(queue.is_empty());
    for pair in ready.windows(2) {
        assert!(pair[0].sent_date < pair[1].sent_date);
    }
}

#[test]
fn always_duplicating_link_queues_every_datagram_twice() {
    let conditions = Conditions::new(50, 5, CERTAIN, 0, 0);
    let mut queue = DelayQueue::new();
    let mut slot = ReorderSlot::new();
    for i in 0..500u32 {
        Proxy::queue_packet_static(
            &mut queue,
            &mut slot,
            i.to_le_bytes().to_vec(),
            dest(),
            conditions,
            0,
        );
    }
    assert!(slot.is_empty());
    assert_eq!(queue.len() % 2, 0);
    assert!(queue.len() >= 980);
    let ready = queue.drain_ready(u128::MAX);
    let mut counts = std::collections::HashMap::new();
    for packet in &ready {
        assert!(packet.sent_date >= 45 * MS && packet.sent_date <= 55 * MS);
        *counts.entry(packet.buffer.clone()).or_insert(0u32) += 1;
    }
    assert!(counts.values().all(|n| *n == 2));
}

#[test]
fn always_reordering_link_holds_every_other_datagram() {
    let conditions = Conditions::new(50, 5, 0, CERTAIN, 0);
    let mut queue = DelayQueue::new();
    let mut slot = ReorderSlot::new();
    let mut sent = 0usize;
    for i in 0..400u32 {
        let before = queue.len() + usize::from(!slot.is_empty());
        Proxy::queue_packet_static(
            &mut queue,
            &mut slot,
            i.to_le_bytes().to_vec(),
            dest(),
            conditions,
            0,
        );
        let after = queue.len() + usize::from(!slot.is_empty());
        assert!(after == before || after == before + 1);
        sent += after - before;
    }
    assert!(sent >= 390);
    assert_eq!(queue.len() + usize::from(!slot.is_empty()), sent);
    assert!(queue.len() % 2 == 0);
    let ready = queue.drain_ready(u128::MAX);
    for packet in &ready {
        assert!(packet.sent_date >= 45 * MS && packet.sent_date <= 110 * MS);
    }
}
