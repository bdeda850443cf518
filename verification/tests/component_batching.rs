use mogwai::component::GizmoComponent;
use mogwai::samples::{Cascade, ClickPerPulse, Counter, CounterIn, Echo};

#[test]
fn counter_three_clicks_flush_once_in_order() {
    let mut comp = GizmoComponent::new(Counter { count: 0 });
    let s = comp.observe_output();
    comp.update(&CounterIn::Click);
    comp.update(&CounterIn::Click);
    comp.update(&CounterIn::Click);
    assert!(comp.is_scheduled());
    assert_eq!(comp.with_state(|c: &Counter| c.count), 3);
    assert_eq!(comp.read_output(s), &Vec::<u64>::new());
    comp.flush();
    assert!(!comp.is_scheduled());
    assert_eq!(comp.read_output(s), &vec![1u64, 2, 3]);
}

#[test]
fn cascade_single_update_batches_three_messages() {
    let mut comp = GizmoComponent::new(Cascade);
    let s = comp.observe_output();
    comp.update(&8u64);
    comp.flush();
    assert_eq!(comp.read_output(s), &vec![8u64, 4, 2]);
}

#[test]
fn cascade_two_updates_coalesce_into_one_flush() {
    let mut comp = GizmoComponent::new(Cascade);
    let s = comp.observe_output();
    comp.update(&8u64);
    assert!(comp.is_scheduled());
    comp.update(&100u64);
    assert!(comp.is_scheduled());
    comp.flush();
    assert_eq!(comp.read_output(s), &vec![8u64, 4, 2, 100, 50, 25]);
    comp.flush();
    assert_eq!(comp.read_output(s), &vec![8u64, 4, 2, 100, 50, 25]);
}

#[test]
fn echo_forwards_unchanged_as_sole_view_message() {
    let mut comp = GizmoComponent::new(Echo);
    let s = comp.observe_output();
    comp.update(&42u64);
    comp.flush();
    assert_eq!(comp.read_output(s), &vec![42u64]);
}

#[test]
fn output_branched_after_flush_sees_nothing_old() {
    let mut comp = GizmoComponent::new(Counter { count: 0 });
    let early = comp.observe_output();
    comp.update(&CounterIn::Click);
    comp.flush();
    let late = comp.observe_output();
    assert_eq!(comp.read_output(early), &vec![1u64]);
    assert_eq!(comp.read_output(late), &Vec::<u64>::new());
    comp.update(&CounterIn::Click);
    comp.flush();
    assert_eq!(comp.read_output(early), &vec![1u64, 2]);
    assert_eq!(comp.read_output(late), &vec![2u64]);
}

#[test]
fn two_output_branches_each_receive_exactly_once() {
    let mut comp = GizmoComponent::new(Echo);
    let rx = comp.output();
    let b1 = rx.branch();
    let b2 = rx.branch();
    let s1 = comp.observe(&b1);
    let s2 = comp.observe(&b2);
    comp.update(&5u64);
    comp.flush();
    assert_eq!(comp.read_output(s1), &vec![5u64]);
    assert_eq!(comp.read_output(s2), &vec![5u64]);
}

#[test]
fn double_click_feedback_runs_after_update_returns() {
    let mut comp = GizmoComponent::new(Counter { count: 0 });
    let s = comp.observe_output();
    comp.update(&CounterIn::DoubleClick);
    assert_eq!(comp.with_state(|c: &Counter| c.count), 1);
    let did = comp.step_feedback();
    assert!(did);
    assert_eq!(comp.with_state(|c: &Counter| c.count), 2);
    let again = comp.step_feedback();
    assert!(!again);
    comp.flush();
    assert_eq!(comp.read_output(s), &vec![1u64, 2]);
}

#[test]
fn rx_from_wires_a_parent_channel_into_the_mailbox() {
    let mut comp = GizmoComponent::new(Counter { count: 0 });
    let (tx, rx) = comp.model_txrx();
    let mut comp = comp.rx_from(&rx);
    comp.send_to(&tx, &CounterIn::Click);
    comp.send_to(&tx, &CounterIn::Click);
    assert_eq!(comp.with_state(|c: &Counter| c.count), 2);
}

#[test]
fn tx_into_forwards_flushed_output_onward() {
    let mut comp = GizmoComponent::new(Echo);
    let (tx2, rx2) = comp.view_txrx();
    let mut comp = comp.tx_into(&tx2);
    let s = comp.observe(&rx2);
    comp.update(&3u64);
    comp.flush();
    assert_eq!(comp.read_output(s), &vec![3u64]);
}

#[test]
fn input_taps_observe_in_registration_order_once_each() {
    let mut comp = GizmoComponent::new(Counter { count: 0 });
    let t1 = comp.observe_input();
    let t2 = comp.observe_input();
    comp.update(&CounterIn::Click);
    comp.update(&CounterIn::Click);
    assert_eq!(comp.read_input(t1), &vec![CounterIn::Click, CounterIn::Click]);
    assert_eq!(comp.read_input(t2), &vec![CounterIn::Click, CounterIn::Click]);
    assert_eq!(comp.with_state(|c: &Counter| c.count), 2);
}

#[test]
fn input_tap_registered_after_updates_sees_nothing_old() {
    let mut comp = GizmoComponent::new(Counter { count: 0 });
    comp.update(&CounterIn::Click);
    let late = comp.observe_input();
    assert_eq!(comp.read_input(late), &Vec::<CounterIn>::new());
    comp.update(&CounterIn::Click);
    assert_eq!(comp.read_input(late), &vec![CounterIn::Click]);
}

#[test]
fn state_reads_see_whole_transitions_only() {
    let mut comp = GizmoComponent::new(Counter { count: 0 });
    assert_eq!(comp.with_state(|c: &Counter| c.count), 0);
    comp.update(&CounterIn::Click);
    assert_eq!(comp.with_state(|c: &Counter| c.count), 1);
    comp.update(&CounterIn::Click);
    assert_eq!(comp.with_state(|c: &Counter| c.count), 2);
}

#[test]
fn run_and_refs_expose_the_built_view() {
    let comp = GizmoComponent::new(Counter { count: 0 });
    assert_eq!(comp.dom_ref(), &());
    assert_eq!(comp.gizmo_ref(), &());
    let node = comp.run();
    assert_eq!(node, ());
}

#[test]
fn run_init_folds_each_message_and_flushes_once() {
    let mut comp = GizmoComponent::new(Counter { count: 0 });
    let s = comp.observe_output();
    let comp = comp.run_init(vec![CounterIn::Click, CounterIn::Click, CounterIn::Click]);
    assert_eq!(comp.with_state(|c: &Counter| c.count), 3);
    assert_eq!(comp.read_output(s), &vec![1u64, 2, 3]);
    assert!(!comp.is_scheduled());
}

#[test]
fn forward_from_translates_child_output_into_parent() {
    let mut child = GizmoComponent::new(Echo);
    let s = child.observe_output();
    let mut parent = GizmoComponent::new(Counter { count: 0 });
    child.update(&7u64);
    child.update(&9u64);
    child.flush();
    parent.forward_from(&mut child, s, &ClickPerPulse);
    assert_eq!(parent.with_state(|c: &Counter| c.count), 2);
    assert_eq!(child.read_output(s), &Vec::<u64>::new());
}
