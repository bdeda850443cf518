use mogwai::txrx::{pump_map, Hub, Unmapped};
use mogwai::samples::{ClickPerPulse, CounterIn, Halve};

#[test]
fn pump_map_carries_translated_messages_between_graphs() {
    let mut src: Hub<u64, Unmapped> = Hub::new();
    let (tx1, rx1) = src.txrx();
    let s = src.respond(&rx1);
    let mut dst: Hub<CounterIn, Unmapped> = Hub::new();
    let (tx2, rx2) = dst.txrx();
    let d = dst.respond(&rx2);
    src.send(&tx1, &1);
    src.send(&tx1, &2);
    pump_map(&mut src, s, &mut dst, &tx2, &ClickPerPulse);
    assert_eq!(dst.log_ref(d), &vec![CounterIn::Click, CounterIn::Click]);
    assert_eq!(src.log_ref(s), &Vec::<u64>::new());
}

#[test]
fn branch_map_transforms_each_message() {
    let mut hub: Hub<u64, Halve> = Hub::new();
    let (tx, rx) = hub.txrx();
    let (_tx2, rx2) = hub.branch_map(&rx, Halve);
    let sd = hub.respond(&rx2);
    let s0 = hub.respond(&rx);
    hub.send(&tx, &9);
    assert_eq!(hub.log_ref(s0), &vec![9u64]);
    assert_eq!(hub.log_ref(sd), &vec![4u64]);
}

#[test]
fn contra_map_translates_before_entering_the_graph() {
    let mut hub: Hub<u64, Halve> = Hub::new();
    let (tx, rx) = hub.txrx();
    let s = hub.respond(&rx);
    let ct = tx.contra_map(Halve);
    hub.send_contra(&ct, &9);
    assert_eq!(hub.log_ref(s), &vec![4u64]);
}

#[test]
fn fan_out_delivers_to_each_responder_once() {
    let mut hub: Hub<u64, Unmapped> = Hub::new();
    let (tx, rx) = hub.txrx();
    let s1 = hub.respond(&rx);
    let s2 = hub.respond(&rx);
    let s3 = hub.respond(&rx);
    hub.send(&tx, &7);
    assert_eq!(hub.log_ref(s1), &vec![7u64]);
    assert_eq!(hub.log_ref(s2), &vec![7u64]);
    assert_eq!(hub.log_ref(s3), &vec![7u64]);
}

#[test]
fn responder_registered_after_send_sees_nothing_old() {
    let mut hub: Hub<u64, Unmapped> = Hub::new();
    let (tx, rx) = hub.txrx();
    hub.send(&tx, &1);
    hub.send(&tx, &2);
    let late = hub.respond(&rx);
    assert_eq!(hub.log_ref(late), &Vec::<u64>::new());
    hub.send(&tx, &3);
    assert_eq!(hub.log_ref(late), &vec![3u64]);
}

#[test]
fn two_branches_each_receive_exactly_once() {
    let mut hub: Hub<u64, Unmapped> = Hub::new();
    let (tx, rx) = hub.txrx();
    let b1 = rx.branch();
    let b2 = rx.branch();
    let s1 = hub.respond(&b1);
    let s2 = hub.respond(&b2);
    hub.send(&tx, &11);
    hub.send(&tx, &12);
    assert_eq!(hub.log_ref(s1), &vec![11u64, 12]);
    assert_eq!(hub.log_ref(s2), &vec![11u64, 12]);
}

#[test]
fn branch_map_derives_a_live_channel() {
    let mut hub: Hub<u64, Unmapped> = Hub::new();
    let (tx, rx) = hub.txrx();
    let s0 = hub.respond(&rx);
    let (_tx2, rx2) = hub.branch_map(&rx, Unmapped);
    let sd = hub.respond(&rx2);
    hub.send(&tx, &5);
    assert_eq!(hub.log_ref(s0), &vec![5u64]);
    assert_eq!(hub.log_ref(sd), &vec![5u64]);
}

#[test]
fn forward_map_reaches_the_target_channel() {
    let mut hub: Hub<u64, Unmapped> = Hub::new();
    let (txa, rxa) = hub.txrx();
    let (txb, rxb) = hub.txrx();
    let sb = hub.respond(&rxb);
    hub.forward_map(&rxa, &txb, Unmapped);
    hub.send(&txa, &9);
    assert_eq!(hub.log_ref(sb), &vec![9u64]);
}

#[test]
fn drain_empties_a_sink_in_order() {
    let mut hub: Hub<u64, Unmapped> = Hub::new();
    let (tx, rx) = hub.txrx();
    let s = hub.respond(&rx);
    hub.send(&tx, &1);
    hub.send(&tx, &2);
    let taken = hub.drain(s);
    assert_eq!(taken, vec![1u64, 2]);
    assert_eq!(hub.log_ref(s), &Vec::<u64>::new());
}

#[test]
fn send_with_no_responders_is_a_noop() {
    let mut hub: Hub<u64, Unmapped> = Hub::new();
    let (tx, rx) = hub.txrx();
    hub.send(&tx, &42);
    let s = hub.respond(&rx);
    assert_eq!(hub.log_ref(s), &Vec::<u64>::new());
}
