use bufchan::buffer::{must_wait, take_next, threshold_reached, transfer};
use bufchan::{unbounded, unbounded_with_buffer, Received, Receiver, Sender};
use std::collections::VecDeque;

/// Receives until the channel is closed.
fn drain<T>(rx: &mut Receiver<T>) -> Vec<T> {
    let mut out = Vec::new();
    loop {
        match rx.poll_recv() {
            Received::Item(v) => out.push(v),
            Received::Pending => {}
            Received::Closed => return out,
        }
    }
}

fn subsequence(all: &[u64], keep: &[u64]) -> Vec<u64> {
    all.iter().copied().filter(|x| keep.contains(x)).collect()
}

/// Sends `lists[k]` through `senders[k]`, one value per sender in turn.
fn round_robin(senders: &mut [Sender<u64>], lists: &[Vec<u64>]) {
    let longest = lists.iter().map(|l| l.len()).max().unwrap_or(0);
    for i in 0..longest {
        for (tx, list) in senders.iter_mut().zip(lists) {
            if i < list.len() {
                tx.send(list[i]);
            }
        }
    }
}

#[test]
fn two_producers_keep_their_order() {
    let (txa, mut rx) = unbounded();
    let txb = txa.clone();
    let mut senders = vec![txa, txb];
    round_robin(&mut senders, &[vec![1, 2, 3], vec![4, 5]]);
    drop(senders);
    let got = drain(&mut rx);
    assert_eq!(got.len(), 5);
    let mut sorted = got.clone();
    sorted.sort();
    assert_eq!(sorted, vec![1, 2, 3, 4, 5]);
    assert_eq!(subsequence(&got, &[1, 2, 3]), vec![1, 2, 3]);
    assert_eq!(subsequence(&got, &[4, 5]), vec![4, 5]);
}

#[test]
fn two_producers_dropped_in_either_order() {
    let (mut txa, mut rx) = unbounded_with_buffer(1);
    let mut txb = txa.clone();
    txb.send(4);
    txa.send(1);
    txa.send(2);
    assert_eq!(rx.poll_recv(), Received::Item(4));
    drop(txa);
    txb.send(5);
    txb.send(3);
    drop(txb);
    let mut got = vec![4];
    got.extend(drain(&mut rx));
    assert_eq!(got, vec![4, 1, 2, 5, 3]);
}

#[test]
fn threshold_zero_single_value_then_closed() {
    let (mut tx, mut rx) = unbounded_with_buffer(0);
    tx.send(7u64);
    drop(tx);
    assert_eq!(rx.poll_recv(), Received::Item(7));
    assert_eq!(rx.poll_recv(), Received::Closed);
}

#[test]
fn closed_stays_closed() {
    let (tx, mut rx) = unbounded::<u64>();
    drop(tx);
    assert_eq!(rx.poll_recv(), Received::Closed);
    assert_eq!(rx.poll_recv(), Received::Closed);
    assert_eq!(rx.poll_recv(), Received::Closed);
}

#[test]
fn many_sends_across_senders() {
    let (tx, mut rx) = unbounded();
    let mut senders: Vec<Sender<u64>> = (0..4).map(|_| tx.clone()).collect();
    drop(tx);
    let lists: Vec<Vec<u64>> =
        (0..4u64).map(|t| (0..250_000u64).map(|i| t * 1_000_000 + i).collect()).collect();
    round_robin(&mut senders, &lists);
    drop(senders);
    let got = drain(&mut rx);
    assert_eq!(got.len(), 1_000_000);
    for t in 0..4u64 {
        let mine: Vec<u64> = got.iter().copied().filter(|x| x / 1_000_000 == t).collect();
        assert_eq!(mine, lists[t as usize]);
    }
}

#[test]
fn every_threshold_conserves_and_orders() {
    for lim in [0usize, 1, 3, 512, 100_000] {
        let (tx, mut rx) = unbounded_with_buffer(lim);
        let txb = tx.clone();
        let mut senders = vec![tx, txb];
        round_robin(&mut senders, &[(0..1000).collect(), (1000..1700).collect()]);
        drop(senders);
        let got = drain(&mut rx);
        assert_eq!(got.len(), 1700);
        let firsts: Vec<u64> = got.iter().copied().filter(|x| *x < 1000).collect();
        let seconds: Vec<u64> = got.iter().copied().filter(|x| *x >= 1000).collect();
        assert_eq!(firsts, (0..1000).collect::<Vec<u64>>());
        assert_eq!(seconds, (1000..1700).collect::<Vec<u64>>());
    }
}

#[test]
fn interleaved_senders_on_one_thread() {
    let (mut a, mut rx) = unbounded_with_buffer(2);
    let mut b = a.clone();
    a.send(1u64);
    b.send(10);
    a.send(2);
    b.send(11);
    a.send(3);
    drop(b);
    drop(a);
    let got = drain(&mut rx);
    assert_eq!(got.len(), 5);
    assert_eq!(subsequence(&got, &[1, 2, 3]), vec![1, 2, 3]);
    assert_eq!(subsequence(&got, &[10, 11]), vec![10, 11]);
}

#[test]
fn below_threshold_waits_in_the_sender() {
    let (mut tx, mut rx) = unbounded();
    tx.send(1u64);
    tx.send(2);
    assert_eq!(rx.poll_recv(), Received::Pending);
    tx.flush();
    assert_eq!(rx.poll_recv(), Received::Item(1));
    assert_eq!(rx.poll_recv(), Received::Item(2));
    assert_eq!(rx.poll_recv(), Received::Pending);
    drop(tx);
    assert_eq!(rx.poll_recv(), Received::Closed);
}

#[test]
fn flush_of_empty_buffer_is_harmless() {
    let (mut tx, mut rx) = unbounded::<u64>();
    tx.flush();
    tx.flush();
    drop(tx);
    assert_eq!(rx.poll_recv(), Received::Closed);
}

#[test]
fn reaching_threshold_delivers_without_flush() {
    let (mut tx, mut rx) = unbounded_with_buffer(3);
    tx.send(1u64);
    tx.send(2);
    tx.send(3);
    assert_eq!(rx.poll_recv(), Received::Item(1));
    assert_eq!(rx.poll_recv(), Received::Item(2));
    assert_eq!(rx.poll_recv(), Received::Item(3));
    tx.send(4);
    assert_eq!(rx.poll_recv(), Received::Pending);
    drop(tx);
    assert_eq!(rx.poll_recv(), Received::Item(4));
    assert_eq!(rx.poll_recv(), Received::Closed);
}

#[test]
fn clone_moves_nothing_and_keeps_channel_open() {
    let (mut a, mut rx) = unbounded();
    a.send(5u64);
    let b = a.clone();
    drop(a);
    assert_eq!(rx.poll_recv(), Received::Item(5));
    assert_eq!(rx.poll_recv(), Received::Pending);
    drop(b);
    assert_eq!(rx.poll_recv(), Received::Closed);
}

#[test]
fn dropped_receiver_does_not_block_senders() {
    let (mut tx, rx) = unbounded_with_buffer(1);
    drop(rx);
    tx.send(1u64);
    tx.send(2);
    tx.flush();
}

#[test]
fn threshold_reached_compares_length_with_limit() {
    assert!(threshold_reached(0, 0));
    assert!(!threshold_reached(2, 3));
    assert!(threshold_reached(3, 3));
    assert!(threshold_reached(4, 3));
}

#[test]
fn transfer_appends_whole_buffer_in_order() {
    let mut local: VecDeque<u32> = VecDeque::from(vec![3, 4]);
    let mut queue: VecDeque<u32> = VecDeque::from(vec![1, 2]);
    transfer(&mut local, &mut queue);
    assert!(local.is_empty());
    assert_eq!(queue, VecDeque::from(vec![1, 2, 3, 4]));
}

#[test]
fn take_next_serves_local_buffer_first() {
    let mut local: VecDeque<u32> = VecDeque::from(vec![7, 8]);
    let mut queue: VecDeque<u32> = VecDeque::from(vec![9]);
    assert_eq!(take_next(&mut local, &mut queue, 2), Received::Item(7));
    assert_eq!(local, VecDeque::from(vec![8]));
    assert_eq!(queue, VecDeque::from(vec![9]));
}

#[test]
fn take_next_swaps_in_shared_queue() {
    let mut local: VecDeque<u32> = VecDeque::new();
    let mut queue: VecDeque<u32> = VecDeque::from(vec![1, 2, 3]);
    assert_eq!(take_next(&mut local, &mut queue, 1), Received::Item(1));
    assert_eq!(local, VecDeque::from(vec![2, 3]));
    assert!(queue.is_empty());
}

#[test]
fn take_next_on_empty_queues() {
    let mut local: VecDeque<u32> = VecDeque::new();
    let mut queue: VecDeque<u32> = VecDeque::new();
    assert_eq!(take_next(&mut local, &mut queue, 3), Received::Pending);
    assert_eq!(take_next(&mut local, &mut queue, 1), Received::Closed);
}

#[test]
fn must_wait_only_while_senders_left_and_queue_empty() {
    assert!(must_wait(2, 0));
    assert!(must_wait(5, 0));
    assert!(!must_wait(1, 0));
    assert!(!must_wait(2, 3));
    assert!(!must_wait(1, 3));
}

#[test]
fn take_next_closes_only_for_the_sole_holder() {
    let mut local: VecDeque<u32> = VecDeque::new();
    let mut queue: VecDeque<u32> = VecDeque::new();
    assert_eq!(take_next(&mut local, &mut queue, 2), Received::Pending);
    assert_eq!(take_next(&mut local, &mut queue, 1), Received::Closed);
    queue.push_back(4);
    assert_eq!(take_next(&mut local, &mut queue, 1), Received::Item(4));
}

#[test]
fn poll_counted_decides_by_the_count() {
    let (mut tx, mut rx) = unbounded();
    tx.send(9u64);
    tx.flush();
    assert_eq!(rx.poll_counted(2), Received::Item(9));
    drop(tx);
    assert_eq!(rx.poll_counted(2), Received::Pending);
    assert_eq!(rx.poll_counted(1), Received::Closed);
}
