use netcond::network::Endpoint;
use netcond::network::Packet;
use netcond::queue::DelayQueue;

fn dest() -> Endpoint {
    Endpoint::V4 { ip: 0x0a00_0001, port: 4000 }
}

fn times(packets: &[Packet]) -> Vec<u128> {
    packets.iter().map(|p| p.sent_date).collect()
}

fn payloads(packets: &[Packet]) -> Vec<Vec<u8>> {
    packets.iter().map(|p| p.buffer.clone()).collect()
}

#[test]
fn new_queue_is_empty() {
    let mut queue = DelayQueue::new();
    assert!(queue.is_empty());
    assert_eq!(queue.len(), 0);
    assert_eq!(queue.next_deadline(), None);
    assert!(queue.drain_ready(u128::MAX).is_empty());
}

#[test]
fn drain_returns_exactly_the_due_packets_in_order() {
    let mut queue = DelayQueue::new();
    for t in [40u128, 10, 30, 20, 50] {
        queue.insert(Packet::new(vec![t as u8], dest(), t));
    }
    assert_eq!(queue.len(), 5);
    assert_eq!(queue.next_deadline(), Some(10));
    let ready = queue.drain_ready(30);
    assert_eq!(times(&ready), vec![10, 20, 30]);
    assert_eq!(payloads(&ready), vec![vec![10], vec![20], vec![30]]);
    assert_eq!(queue.len(), 2);
    assert_eq!(queue.next_deadline(), Some(40));
}

#[test]
fn drain_hands_each_packet_out_once() {
    let mut queue = DelayQueue::new();
    for t in [5u128, 15, 25, 35] {
        queue.insert(Packet::new(vec![t as u8], dest(), t));
    }
    let mut seen: Vec<u128> = Vec::new();
    seen.extend(times(&queue.drain_ready(4)));
    assert!(seen.is_empty());
    seen.extend(times(&queue.drain_ready(15)));
    assert_eq!(seen, vec![5, 15]);
    assert!(queue.drain_ready(15).is_empty());
    assert!(queue.drain_ready(10).is_empty());
    seen.extend(times(&queue.drain_ready(100)));
    assert_eq!(seen, vec![5, 15, 25, 35]);
    assert!(queue.drain_ready(u128::MAX).is_empty());
    assert!(queue.is_empty());
}

#[test]
fn a_packet_is_due_at_its_own_time_and_not_before() {
    let mut queue = DelayQueue::new();
    queue.insert(Packet::new(vec![1], dest(), 1_000));
    assert!(queue.drain_ready(999).is_empty());
    assert_eq!(queue.len(), 1);
    let ready = queue.drain_ready(1_000);
    assert_eq!(times(&ready), vec![1_000]);
    assert!(queue.is_empty());
}

#[test]
fn packets_of_one_time_are_all_kept_in_the_order_of_their_coming() {
    let mut queue = DelayQueue::new();
    queue.insert(Packet::new(vec![1], dest(), 7));
    queue.insert(Packet::new(vec![2], dest(), 7));
    queue.insert(Packet::new(vec![0], dest(), 3));
    queue.insert(Packet::new(vec![3], dest(), 7));
    queue.insert(Packet::new(vec![4], dest(), 9));
    assert_eq!(queue.len(), 5);
    let ready = queue.drain_ready(7);
    assert_eq!(times(&ready), vec![3, 7, 7, 7]);
    assert_eq!(payloads(&ready), vec![vec![0], vec![1], vec![2], vec![3]]);
    assert_eq!(payloads(&queue.drain_ready(9)), vec![vec![4]]);
}

#[test]
fn insert_after_drain_keeps_the_order() {
    let mut queue = DelayQueue::new();
    queue.insert(Packet::new(vec![1], dest(), 100));
    queue.insert(Packet::new(vec![2], dest(), 200));
    assert_eq!(times(&queue.drain_ready(150)), vec![100]);
    queue.insert(Packet::new(vec![3], dest(), 50));
    queue.insert(Packet::new(vec![4], dest(), 200));
    queue.insert(Packet::new(vec![5], dest(), u128::MAX));
    assert_eq!(queue.next_deadline(), Some(50));
    let ready = queue.drain_ready(u128::MAX);
    assert_eq!(payloads(&ready), vec![vec![3], vec![2], vec![4], vec![5]]);
}

#[test]
fn drain_keeps_destination_and_payload() {
    let other = Endpoint::V6 { ip6: 1, port: 9, flowinfo: 0, scope_id: 0 };
    let mut queue = DelayQueue::new();
    queue.insert(Packet::new(vec![1, 2, 3], dest(), 2));
    queue.insert(Packet::new(Vec::new(), other, 1));
    let ready = queue.drain_ready(2);
    assert_eq!(ready.len(), 2);
    assert_eq!(ready[0].dest, other);
    assert_eq!(ready[0].size(), 0);
    assert_eq!(ready[1].dest, dest());
    assert_eq!(ready[1].buffer, vec![1, 2, 3]);
}

#[test]
fn many_packets_leave_in_the_order_of_their_times() {
    let mut queue = DelayQueue::new();
    let mut t: u128 = 12_345;
    for i in 0..500u32 {
        t = (t * 1_103_515_245 + 12_345) % 1_000;
        queue.insert(Packet::new(i.to_le_bytes().to_vec(), dest(), t));
    }
    let first = queue.drain_ready(499);
    let second = queue.drain_ready(999);
    assert_eq!(first.len() + second.len(), 500);
    assert!(first.iter().all(|p| p.sent_date <= 499));
    assert!(second.iter().all(|p| p.sent_date > 499));
    for pair in first.windows(2).chain(second.windows(2)) {
        assert!(pair[0].sent_date <= pair[1].sent_date);
        if pair[0].sent_date == pair[1].sent_date {
            let a = u32::from_le_bytes([pair[0].buffer[0], pair[0].buffer[1], pair[0].buffer[2], pair[0].buffer[3]]);
            let b = u32::from_le_bytes([pair[1].buffer[0], pair[1].buffer[1], pair[1].buffer[2], pair[1].buffer[3]]);
            assert!(a < b);
        }
    }
}

#[test]
fn wait_is_no_longer_than_the_timeout_or_the_next_deadline() {
    let mut queue = DelayQueue::new();
    assert_eq!(queue.wait_for_work(5, 10_000), 10_000);
    assert_eq!(queue.wait_for_work(5, 0), 0);
    queue.insert(Packet::new(vec![1], dest(), 1_000));
    queue.insert(Packet::new(vec![2], dest(), 400));
    assert_eq!(queue.wait_for_work(0, 10_000), 400);
    assert_eq!(queue.wait_for_work(100, 10_000), 300);
    assert_eq!(queue.wait_for_work(100, 300), 300);
    assert_eq!(queue.wait_for_work(100, 299), 299);
    assert_eq!(queue.wait_for_work(399, 10_000), 1);
    assert_eq!(queue.wait_for_work(400, 10_000), 0);
    assert_eq!(queue.wait_for_work(5_000, 10_000), 0);
    assert_eq!(queue.drain_ready(400).len(), 1);
    assert_eq!(queue.wait_for_work(400, 10_000), 600);
    assert_eq!(queue.wait_for_work(400, u128::MAX), 600);
}
