//! Components: model/view message passing over the signal graph.
//!
//! A component folds incoming model messages into its state and emits view
//! messages describing how the view should change. `GizmoComponent` is the
//! running instance: it owns the state, the model-message input graph, the
//! view-message output graph, and the batching buffer that coalesces every
//! view message produced within one scheduling tick into a single flush on
//! the public output channel.
//!
//! Re-entrancy is handled by queueing: a model message the update logic
//! re-injects through its `Subscriber` waits in the instance's backlog until
//! the current update returns, and the host loop (or `step_feedback`) drains
//! it. This keeps every state transition atomic at the contract level.

use vstd::prelude::*;
use crate::msg::Message;
use crate::txrx::{Hub, Transmitter, Receiver, Responder, Unmapped, Translate, translate_all, fan_out, fan_out_to, sent_to, send_all, lemma_sent_to_add, lemma_sent_to_push};

verus! {

/// The update-side transmitter handle for view messages: `update` sends view
/// messages here, and the instance moves them into its batching buffer when
/// the call returns.
pub struct Emitter<V: Message> {
    queue: Vec<V>,
}

impl<V: Message> Emitter<V> {
    /// The view messages sent so far, in send order.
    pub closed spec fn sent(self) -> Seq<V> {
        self.queue@
    }

    /// An emitter with nothing sent.
    pub fn new() -> (e: Self)
        ensures
            e.sent() == Seq::<V>::empty(),
    {
        Emitter { queue: Vec::new() }
    }

    /// Send one view message.
    pub fn send(&mut self, m: &V)
        ensures
            final(self).sent() == old(self).sent().push(*m),
    {
        let d = m.dup();
        self.queue.push(d);
    }
}

/// The restricted handle through which update logic re-injects model
/// messages into its own component. Re-injected messages are queued and
/// processed after the current update returns.
pub struct Subscriber<M: Message> {
    queue: Vec<M>,
}

impl<M: Message> Subscriber<M> {
    /// The model messages re-injected so far, in order.
    pub closed spec fn queued(self) -> Seq<M> {
        self.queue@
    }

    /// A subscriber with nothing queued.
    pub fn new() -> (s: Self)
        ensures
            s.queued() == Seq::<M>::empty(),
    {
        Subscriber { queue: Vec::new() }
    }

    /// Queue one model message for a later update cycle.
    pub fn send_async(&mut self, m: &M)
        ensures
            final(self).queued() == old(self).queued().push(*m),
    {
        let d = m.dup();
        self.queue.push(d);
    }
}

/// A component with distinct input (model update) and output (view update)
/// messages.
///
/// The three spec functions are the component's mathematical model: `next`
/// is the state transition, `emits` the view messages one model message
/// produces, and `feedback` the model messages it re-injects. `update` must
/// realize exactly that model; `view` builds the external representation
/// once, at construction time.
pub trait Component: Sized {
    /// A model message comes from the outside world into `update`.
    type ModelMsg: Message;

    /// A view message comes out of `update` and changes the view.
    type ViewMsg: Message;

    /// The type of node representing the root of this component's view.
    type DomNode;

    /// The state after folding one model message.
    spec fn next(self, m: Self::ModelMsg) -> Self;

    /// The view messages one model message makes `update` send, in order.
    spec fn emits(self, m: Self::ModelMsg) -> Seq<Self::ViewMsg>;

    /// The model messages one model message makes `update` re-inject, in
    /// order.
    spec fn feedback(self, m: Self::ModelMsg) -> Seq<Self::ModelMsg>;

    /// What it means for a built node to represent this component wired to
    /// the given input transmitter and output receiver.
    spec fn renders(self, tx: Transmitter, rx: Receiver, node: Self::DomNode) -> bool;

    /// Fold one model message into the state, sending view messages through
    /// `tx_view` and re-injecting model messages through `sub`. This is the
    /// sole mutation point of the state.
    fn update(&mut self, msg: &Self::ModelMsg, tx_view: &mut Emitter<Self::ViewMsg>, sub: &mut Subscriber<Self::ModelMsg>)
        ensures
            *final(self) == old(self).next(*msg),
            final(tx_view).sent() == old(tx_view).sent() + old(self).emits(*msg),
            final(sub).queued() == old(sub).queued() + old(self).feedback(*msg),
    ;

    /// Build this component's view exactly once, wired to emit model
    /// messages on `tx` and to react to view messages on `rx`.
    fn view(&self, tx: Transmitter, rx: Receiver) -> (node: Self::DomNode)
        ensures
            self.renders(tx, rx, node),
    ;
}

/// Construct the running instance for a component: the free form of
/// `GizmoComponent::new`.
pub fn into_component<T: Component>(init: T) -> (c: GizmoComponent<T>)
    ensures
        c.wf(),
        c.state() == init,
        c.pending() == Seq::<T::ViewMsg>::empty(),
        !c.scheduled(),
        c.backlog() == Seq::<T::ModelMsg>::empty(),
        init.renders((Transmitter { chan: 0 }), (Receiver { chan: 0 }), c.node()),
{
    GizmoComponent::new(init)
}

/// The state after folding each message of `ms`, in order.
pub open spec fn fold_state<T: Component>(s: T, ms: Seq<T::ModelMsg>) -> T
    decreases ms.len(),
{
    if ms.len() == 0 {
        s
    } else {
        fold_state(s, ms.drop_last()).next(ms.last())
    }
}

/// All view messages emitted while folding `ms`, in order.
pub open spec fn fold_emits<T: Component>(s: T, ms: Seq<T::ModelMsg>) -> Seq<T::ViewMsg>
    decreases ms.len(),
{
    if ms.len() == 0 {
        Seq::empty()
    } else {
        fold_emits(s, ms.drop_last()) + fold_state(s, ms.drop_last()).emits(ms.last())
    }
}

/// All model messages re-injected while folding `ms`, in order.
pub open spec fn fold_feedback<T: Component>(s: T, ms: Seq<T::ModelMsg>) -> Seq<T::ModelMsg>
    decreases ms.len(),
{
    if ms.len() == 0 {
        Seq::empty()
    } else {
        fold_feedback(s, ms.drop_last()) + fold_state(s, ms.drop_last()).feedback(ms.last())
    }
}

/// An extra responder on the public input channel: a recording sink other
/// than the mailbox, as `observe_input` registers.
pub open spec fn input_tap(r: Responder<Unmapped>) -> bool {
    match r {
        Responder::Sink(s) => s >= 1,
        Responder::Mapped(_, _) => false,
    }
}

/// On a public input channel — the mailbox first, recording taps after it —
/// every send reaches the mailbox exactly once, whatever the taps observe.
pub proof fn lemma_mailbox_once<M: Message>(chans: Seq<Seq<Responder<Unmapped>>>, m: M, j: int)
    requires
        0 < chans.len(),
        1 <= j <= chans[0].len(),
        chans[0][0] == Responder::<Unmapped>::Sink(0),
        forall|k: int| 1 <= k < chans[0].len() ==> input_tap(#[trigger] chans[0][k]),
    ensures
        sent_to(fan_out_to(chans, 0, j, m), 0) == seq![m],
    decreases j,
{
    if j == 1 {
        assert(fan_out_to(chans, 0, 0, m) =~= Seq::<(int, M)>::empty());
        assert(fan_out_to(chans, 0, 1, m) == Seq::<(int, M)>::empty().push((0int, m)));
        lemma_sent_to_push(Seq::<(int, M)>::empty(), (0int, m), 0);
        assert(sent_to(Seq::<(int, M)>::empty(), 0) =~= Seq::<M>::empty());
        assert(Seq::<M>::empty().push(m) =~= seq![m]);
    } else {
        lemma_mailbox_once(chans, m, j - 1);
        assert(input_tap(chans[0][j - 1]));
        let prev = fan_out_to(chans, 0, j - 1, m);
        match chans[0][j - 1] {
            Responder::Sink(s) => {
                assert(fan_out_to(chans, 0, j, m) == prev.push((s as int, m)));
                lemma_sent_to_push(prev, (s as int, m), 0);
            },
            Responder::Mapped(p, c2) => {
                assert(false);
            },
        }
    }
}

/// A running component instance: the state, the built view, the input and
/// output signal graphs, the batching buffer, and the backlog of re-injected
/// model messages.
pub struct GizmoComponent<T: Component> {
    state: T,
    gizmo: T::DomNode,
    in_hub: Hub<T::ModelMsg, Unmapped>,
    out_hub: Hub<T::ViewMsg, Unmapped>,
    trns: Transmitter,
    tx_out: Transmitter,
    recv: Receiver,
    pending: Vec<T::ViewMsg>,
    flush_scheduled: bool,
    backlog: Vec<T::ModelMsg>,
}

impl<T: Component> GizmoComponent<T> {
    /// The component's state.
    pub closed spec fn state(self) -> T {
        self.state
    }

    /// The built view node.
    pub closed spec fn node(self) -> T::DomNode {
        self.gizmo
    }

    /// The input signal graph for model messages. Its sink 0 is the
    /// instance's mailbox; channel 0 is the public input.
    pub closed spec fn ins(self) -> Hub<T::ModelMsg, Unmapped> {
        self.in_hub
    }

    /// The output signal graph for view messages. Its channel 0 is the
    /// public output every flush sends on.
    pub closed spec fn outs(self) -> Hub<T::ViewMsg, Unmapped> {
        self.out_hub
    }

    /// The view messages buffered this tick, in push order.
    pub closed spec fn pending(self) -> Seq<T::ViewMsg> {
        self.pending@
    }

    /// Whether a flush is scheduled for the next tick boundary. Exactly one
    /// flush is scheduled when the buffer turns non-empty; further pushes
    /// schedule nothing more.
    pub closed spec fn scheduled(self) -> bool {
        self.flush_scheduled
    }

    /// The re-injected model messages waiting for a later update cycle.
    pub closed spec fn backlog(self) -> Seq<T::ModelMsg> {
        self.backlog@
    }

    pub closed spec fn wf(self) -> bool {
        &&& self.in_hub.wf()
        &&& self.out_hub.wf()
        &&& self.in_hub.chans().len() >= 1
        &&& self.in_hub.logs().len() >= 1
        &&& self.in_hub.chans()[0].len() >= 1
        &&& self.in_hub.chans()[0][0] == Responder::<Unmapped>::Sink(0)
        &&& (forall|j: int|
            1 <= j < self.in_hub.chans()[0].len() ==> input_tap(
                #[trigger] self.in_hub.chans()[0][j],
            ))
        &&& self.in_hub.logs()[0] == Seq::<T::ModelMsg>::empty()
        &&& self.out_hub.chans().len() >= 1
        &&& self.trns.chan == 0
        &&& self.tx_out.chan == 0
        &&& self.recv.chan == 0
        &&& (self.flush_scheduled <==> self.pending@.len() > 0)
    }

    /// Construct the instance: wrap the state, wire the input channel to the
    /// mailbox, allocate the public output channel, and build the view
    /// exactly once, wired to the input transmitter and a branch of the
    /// public output.
    pub fn new(init: T) -> (c: GizmoComponent<T>)
        ensures
            c.wf(),
            c.state() == init,
            c.pending() == Seq::<T::ViewMsg>::empty(),
            !c.scheduled(),
            c.backlog() == Seq::<T::ModelMsg>::empty(),
            c.outs().chans() == seq![Seq::<Responder<Unmapped>>::empty()],
            c.outs().logs() == Seq::<Seq<T::ViewMsg>>::empty(),
            c.outs().hist() == Seq::<(int, T::ViewMsg)>::empty(),
            c.ins().hist() == Seq::<(int, T::ModelMsg)>::empty(),
            init.renders((Transmitter { chan: 0 }), (Receiver { chan: 0 }), c.node()),
    {
        let mut in_hub: Hub<T::ModelMsg, Unmapped> = Hub::new();
        let (tx_in, rx_in) = in_hub.txrx();
        let mailbox = in_hub.respond(&rx_in);
        let mut out_hub: Hub<T::ViewMsg, Unmapped> = Hub::new();
        let (tx_out, rx_out) = out_hub.txrx();
        let gizmo = init.view(tx_in, rx_out.branch());
        proof {
            assert(mailbox == 0);
            assert(in_hub.chans()[0] =~= seq![Responder::<Unmapped>::Sink(0)]);
            assert(in_hub.logs()[0] =~= Seq::<T::ModelMsg>::empty());
            assert(out_hub.chans() =~= seq![Seq::<Responder<Unmapped>>::empty()]);
        }
        GizmoComponent {
            state: init,
            gizmo,
            in_hub,
            out_hub,
            trns: tx_in,
            tx_out,
            recv: rx_out,
            pending: Vec::new(),
            flush_scheduled: false,
            backlog: Vec::new(),
        }
    }

    /// Run one update call: fold `m` into the state, move the emitted view
    /// messages into the batching buffer (scheduling a flush when the buffer
    /// turns non-empty), and queue the re-injected model messages.
    fn step(&mut self, m: &T::ModelMsg)
        requires
            old(self).wf(),
        ensures
            final(self).wf(),
            final(self).state() == old(self).state().next(*m),
            final(self).pending() == old(self).pending() + old(self).state().emits(*m),
            final(self).backlog() == old(self).backlog() + old(self).state().feedback(*m),
            final(self).ins() == old(self).ins(),
            final(self).outs() == old(self).outs(),
            final(self).node() == old(self).node(),
    {
        let mut em: Emitter<T::ViewMsg> = Emitter::new();
        let mut sub: Subscriber<T::ModelMsg> = Subscriber::new();
        self.state.update(m, &mut em, &mut sub);
        self.pending.append(&mut em.queue);
        self.backlog.append(&mut sub.queue);
        if !self.pending.is_empty() {
            self.flush_scheduled = true;
        }
    }

    /// Send a model message into the instance through a wired input
    /// transmitter: the input graph delivers it to the mailbox (and to
    /// whatever the channel is wired to), and every message that reaches the
    /// mailbox is folded into the state, in arrival order.
    pub fn send_to(&mut self, tx: &Transmitter, msg: &T::ModelMsg)
        requires
            old(self).wf(),
            tx.chan < old(self).ins().chans().len(),
        ensures
            final(self).wf(),
            final(self).state() == fold_state(
                old(self).state(),
                sent_to(fan_out(old(self).ins().chans(), tx.chan as int, *msg), 0),
            ),
            final(self).pending() == old(self).pending() + fold_emits(
                old(self).state(),
                sent_to(fan_out(old(self).ins().chans(), tx.chan as int, *msg), 0),
            ),
            final(self).backlog() == old(self).backlog() + fold_feedback(
                old(self).state(),
                sent_to(fan_out(old(self).ins().chans(), tx.chan as int, *msg), 0),
            ),
            final(self).ins().chans() == old(self).ins().chans(),
            final(self).ins().logs().len() == old(self).ins().logs().len(),
            final(self).ins().logs()[0] == old(self).ins().logs()[0],
            forall|k: int|
                1 <= k < old(self).ins().logs().len() ==> final(self).ins().logs()[k] == old(
                    self,
                ).ins().logs()[k] + sent_to(
                    fan_out(old(self).ins().chans(), tx.chan as int, *msg),
                    k,
                ),
            final(self).ins().hist() == old(self).ins().hist() + fan_out(
                old(self).ins().chans(),
                tx.chan as int,
                *msg,
            ),
            final(self).outs() == old(self).outs(),
            final(self).node() == old(self).node(),
    {
        let mm = msg.dup();
        self.in_hub.send(tx, &mm);
        let arrived = self.in_hub.drain(0);
        let ghost arr = arrived@;
        proof {
            assert(arr == sent_to(fan_out(old(self).ins().chans(), tx.chan as int, *msg), 0));
            assert(self.ins().logs().len() == old(self).ins().logs().len());
            assert(self.ins().logs()[0] =~= old(self).ins().logs()[0]);
        }
        let ghost entry = *self;
        let mut i: usize = 0;
        while i < arrived.len()
            invariant
                i <= arrived.len(),
                arr == arrived@,
                entry.wf(),
                self.wf(),
                self.state() == fold_state(entry.state(), arr.take(i as int)),
                self.pending() == entry.pending() + fold_emits(entry.state(), arr.take(i as int)),
                self.backlog() == entry.backlog() + fold_feedback(
                    entry.state(),
                    arr.take(i as int),
                ),
                self.ins() == entry.ins(),
                self.outs() == entry.outs(),
                self.node() == entry.node(),
            decreases arrived.len() - i,
        {
            let ghost before = *self;
            self.step(&arrived[i]);
            proof {
                assert(arr.take(i as int + 1).drop_last() =~= arr.take(i as int));
                assert(arr.take(i as int + 1).last() == arr[i as int]);
                assert(fold_emits(entry.state(), arr.take(i as int + 1)) == fold_emits(
                    entry.state(),
                    arr.take(i as int),
                ) + before.state().emits(arr[i as int]));
                assert(entry.pending() + fold_emits(entry.state(), arr.take(i as int + 1)) =~= (
                entry.pending() + fold_emits(entry.state(), arr.take(i as int)))
                    + before.state().emits(arr[i as int]));
                assert(entry.backlog() + fold_feedback(entry.state(), arr.take(i as int + 1)) =~= (
                entry.backlog() + fold_feedback(entry.state(), arr.take(i as int)))
                    + before.state().feedback(arr[i as int]));
            }
            i += 1;
        }
        proof {
            assert(arr.take(arrived.len() as int) =~= arr);
        }
    }

    /// Update the component with the given message: the standard way an
    /// owner or parent feeds model messages in. One update call runs; view
    /// messages join the batching buffer and a flush is scheduled when the
    /// buffer turns non-empty; re-injected model messages join the backlog.
    pub fn update(&mut self, msg: &T::ModelMsg)
        requires
            old(self).wf(),
        ensures
            final(self).wf(),
            final(self).state() == old(self).state().next(*msg),
            final(self).pending() == old(self).pending() + old(self).state().emits(*msg),
            final(self).scheduled() == (old(self).scheduled() || old(self).state().emits(
                *msg,
            ).len() > 0),
            final(self).backlog() == old(self).backlog() + old(self).state().feedback(*msg),
            final(self).ins().chans() == old(self).ins().chans(),
            final(self).ins().logs().len() == old(self).ins().logs().len(),
            final(self).ins().logs()[0] == old(self).ins().logs()[0],
            forall|k: int|
                1 <= k < old(self).ins().logs().len() ==> final(self).ins().logs()[k] == old(
                    self,
                ).ins().logs()[k] + sent_to(fan_out(old(self).ins().chans(), 0, *msg), k),
            final(self).ins().hist() == old(self).ins().hist() + fan_out(
                old(self).ins().chans(),
                0,
                *msg,
            ),
            final(self).outs() == old(self).outs(),
            final(self).node() == old(self).node(),
    {
        let t = self.trns;
        proof {
            let chans = self.ins().chans();
            lemma_mailbox_once(chans, *msg, chans[0].len() as int);
            assert(fan_out(chans, 0, *msg) == fan_out_to(chans, 0, chans[0].len() as int, *msg));
        }
        self.send_to(&t, msg);
        proof {
            let chans = old(self).ins().chans();
            let arr = sent_to(fan_out(chans, 0, *msg), 0);
            assert(arr == seq![*msg]);
            let s0 = old(self).state();
            let none = Seq::<T::ModelMsg>::empty();
            assert(seq![*msg].drop_last() =~= none);
            assert(fold_state(s0, none) == s0);
            assert(fold_emits(s0, none) =~= Seq::<T::ViewMsg>::empty());
            assert(fold_feedback(s0, none) =~= none);
            assert(fold_state(s0, seq![*msg]) == s0.next(*msg));
            assert(fold_emits(s0, seq![*msg]) =~= s0.emits(*msg));
            assert(fold_feedback(s0, seq![*msg]) =~= s0.feedback(*msg));
        }
    }

    /// Flush the batching buffer: drain it atomically, then re-send each
    /// drained message on the public output channel, in original push order,
    /// as one downstream burst. Flushing an empty buffer is a no-op. The
    /// scheduled one-shot is spent either way.
    #[verifier::loop_isolation(false)]
    pub fn flush(&mut self)
        requires
            old(self).wf(),
        ensures
            final(self).wf(),
            final(self).state() == old(self).state(),
            final(self).pending() == Seq::<T::ViewMsg>::empty(),
            !final(self).scheduled(),
            final(self).backlog() == old(self).backlog(),
            final(self).ins() == old(self).ins(),
            final(self).node() == old(self).node(),
            final(self).outs().chans() == old(self).outs().chans(),
            final(self).outs().logs().len() == old(self).outs().logs().len(),
            forall|s: int|
                0 <= s < old(self).outs().logs().len() ==> final(self).outs().logs()[s] == old(
                    self,
                ).outs().logs()[s] + sent_to(
                    send_all(old(self).outs().chans(), 0, old(self).pending()),
                    s,
                ),
            final(self).outs().hist() == old(self).outs().hist() + send_all(
                old(self).outs().chans(),
                0,
                old(self).pending(),
            ),
    {
        let mut todo: Vec<T::ViewMsg> = Vec::new();
        core::mem::swap(&mut self.pending, &mut todo);
        self.flush_scheduled = false;
        let t = self.tx_out;
        let ghost entry = *self;
        let ghost ms = todo@;
        let ghost chans = entry.outs().chans();
        proof {
            assert(send_all(chans, 0, ms.take(0)) =~= Seq::<(int, T::ViewMsg)>::empty());
            assert(entry.outs().hist() + send_all(chans, 0, ms.take(0)) =~= entry.outs().hist());
            assert forall|s: int| 0 <= s < entry.outs().logs().len() implies entry.outs().logs()[s]
                == entry.outs().logs()[s] + sent_to(send_all(chans, 0, ms.take(0)), s) by {
                assert(sent_to(send_all(chans, 0, ms.take(0)), s) =~= Seq::<T::ViewMsg>::empty());
                assert(entry.outs().logs()[s] + Seq::<T::ViewMsg>::empty() =~= entry.outs().logs()[
                    s
                ]);
            }
        }
        let mut i: usize = 0;
        while i < todo.len()
            invariant
                i <= todo.len(),
                ms == todo@,
                self.wf(),
                self.state() == entry.state(),
                self.pending() == Seq::<T::ViewMsg>::empty(),
                !self.scheduled(),
                self.backlog() == entry.backlog(),
                self.ins() == entry.ins(),
                self.node() == entry.node(),
                self.outs().chans() == chans,
                self.outs().logs().len() == entry.outs().logs().len(),
                forall|s: int|
                    0 <= s < entry.outs().logs().len() ==> self.outs().logs()[s] == entry.outs(
                    ).logs()[s] + sent_to(send_all(chans, 0, ms.take(i as int)), s),
                self.outs().hist() == entry.outs().hist() + send_all(chans, 0, ms.take(i as int)),
                t.chan == 0,
            decreases todo.len() - i,
        {
            let ghost before = *self;
            self.out_hub.send(&t, &todo[i]);
            proof {
                assert(ms.take(i as int + 1).drop_last() =~= ms.take(i as int));
                assert(ms.take(i as int + 1).last() == ms[i as int]);
                let sa = send_all(chans, 0, ms.take(i as int));
                let fo = fan_out(chans, 0, ms[i as int]);
                assert(send_all(chans, 0, ms.take(i as int + 1)) == sa + fo);
                assert(self.outs().hist() == entry.outs().hist() + (sa + fo)) by {
                    assert(before.outs().hist() == entry.outs().hist() + sa);
                    assert(self.outs().hist() == before.outs().hist() + fo);
                    assert(entry.outs().hist() + (sa + fo) =~= (entry.outs().hist() + sa) + fo);
                }
                assert forall|s: int| 0 <= s < entry.outs().logs().len() implies self.outs().logs()[
                    s
                ] == entry.outs().logs()[s] + sent_to(send_all(chans, 0, ms.take(i as int + 1)), s)
                    by {
                    lemma_sent_to_add(sa, fo, s);
                    assert(self.outs().logs()[s] == before.outs().logs()[s] + sent_to(fo, s));
                    assert(entry.outs().logs()[s] + (sent_to(sa, s) + sent_to(fo, s)) =~= (
                    entry.outs().logs()[s] + sent_to(sa, s)) + sent_to(fo, s));
                }
            }
            i += 1;
        }
        proof {
            assert(ms.take(todo@.len() as int) =~= ms);
        }
    }

    /// Register a fresh recording responder on a receiver's channel of the
    /// output graph and hand back its sink index. The fresh log starts
    /// empty: messages flushed before registration are never replayed.
    pub fn observe(&mut self, rx: &Receiver) -> (s: usize)
        requires
            old(self).wf(),
            rx.chan < old(self).outs().chans().len(),
        ensures
            final(self).wf(),
            s == old(self).outs().logs().len(),
            final(self).outs().logs() == old(self).outs().logs().push(Seq::<T::ViewMsg>::empty()),
            final(self).outs().chans() == old(self).outs().chans().update(
                rx.chan as int,
                old(self).outs().chans()[rx.chan as int].push(Responder::Sink(s)),
            ),
            final(self).outs().hist() == old(self).outs().hist(),
            final(self).state() == old(self).state(),
            final(self).pending() == old(self).pending(),
            final(self).scheduled() == old(self).scheduled(),
            final(self).backlog() == old(self).backlog(),
            final(self).ins() == old(self).ins(),
            final(self).node() == old(self).node(),
    {
        self.out_hub.respond(rx)
    }

    /// The public output receiver: a handle on the channel every flush
    /// sends on, for external consumption.
    pub fn output(&self) -> (r: Receiver)
        requires
            self.wf(),
        ensures
            r.chan == 0,
            r.chan < self.outs().chans().len(),
    {
        self.recv.branch()
    }

    /// Branch the public output and start recording it: the one-call form
    /// of `output`, `branch` and `observe`.
    pub fn observe_output(&mut self) -> (s: usize)
        requires
            old(self).wf(),
        ensures
            final(self).wf(),
            s == old(self).outs().logs().len(),
            final(self).outs().logs() == old(self).outs().logs().push(Seq::<T::ViewMsg>::empty()),
            final(self).outs().chans() == old(self).outs().chans().update(
                0,
                old(self).outs().chans()[0].push(Responder::Sink(s)),
            ),
            final(self).outs().hist() == old(self).outs().hist(),
            final(self).state() == old(self).state(),
            final(self).pending() == old(self).pending(),
            final(self).scheduled() == old(self).scheduled(),
            final(self).backlog() == old(self).backlog(),
            final(self).ins() == old(self).ins(),
            final(self).node() == old(self).node(),
    {
        let rx = self.output();
        self.observe(&rx)
    }

    /// Read the log of an output sink: every view message it has received,
    /// in delivery order.
    pub fn read_output(&self, s: usize) -> (v: &Vec<T::ViewMsg>)
        requires
            s < self.outs().logs().len(),
        ensures
            v@ == self.outs().logs()[s as int],
    {
        self.out_hub.log_ref(s)
    }

    /// Empty an output sink, handing over everything it has received, in
    /// delivery order.
    pub fn drain_output(&mut self, s: usize) -> (v: Vec<T::ViewMsg>)
        requires
            old(self).wf(),
            s < old(self).outs().logs().len(),
        ensures
            final(self).wf(),
            v@ == old(self).outs().logs()[s as int],
            final(self).outs().chans() == old(self).outs().chans(),
            final(self).outs().logs() == old(self).outs().logs().update(
                s as int,
                Seq::<T::ViewMsg>::empty(),
            ),
            final(self).outs().hist() == old(self).outs().hist(),
            final(self).state() == old(self).state(),
            final(self).pending() == old(self).pending(),
            final(self).scheduled() == old(self).scheduled(),
            final(self).backlog() == old(self).backlog(),
            final(self).ins() == old(self).ins(),
            final(self).node() == old(self).node(),
    {
        self.out_hub.drain(s)
    }

    /// Connect a child component's output into this component's input:
    /// drain the child's output sink and fold each of its view messages,
    /// translated into this component's model-message type, in delivery
    /// order — the cross-type half of forwarding between components.
    #[verifier::loop_isolation(false)]
    pub fn forward_from<S: Component, F: Translate<S::ViewMsg, T::ModelMsg>>(
        &mut self,
        child: &mut GizmoComponent<S>,
        s: usize,
        f: &F,
    )
        requires
            old(self).wf(),
            old(child).wf(),
            s < old(child).outs().logs().len(),
        ensures
            final(child).wf(),
            final(child).outs().chans() == old(child).outs().chans(),
            final(child).outs().logs() == old(child).outs().logs().update(
                s as int,
                Seq::<S::ViewMsg>::empty(),
            ),
            final(child).outs().hist() == old(child).outs().hist(),
            final(child).state() == old(child).state(),
            final(child).pending() == old(child).pending(),
            final(child).scheduled() == old(child).scheduled(),
            final(child).backlog() == old(child).backlog(),
            final(child).ins() == old(child).ins(),
            final(child).node() == old(child).node(),
            final(self).wf(),
            final(self).state() == fold_state(
                old(self).state(),
                translate_all(*f, old(child).outs().logs()[s as int]),
            ),
            final(self).pending() == old(self).pending() + fold_emits(
                old(self).state(),
                translate_all(*f, old(child).outs().logs()[s as int]),
            ),
            final(self).backlog() == old(self).backlog() + fold_feedback(
                old(self).state(),
                translate_all(*f, old(child).outs().logs()[s as int]),
            ),
            final(self).node() == old(self).node(),
            final(self).ins().chans() == old(self).ins().chans(),
            final(self).ins().logs().len() == old(self).ins().logs().len(),
            final(self).ins().logs()[0] == old(self).ins().logs()[0],
            forall|k: int|
                1 <= k < old(self).ins().logs().len() ==> final(self).ins().logs()[k] == old(
                    self,
                ).ins().logs()[k] + sent_to(
                    send_all(
                        old(self).ins().chans(),
                        0,
                        translate_all(*f, old(child).outs().logs()[s as int]),
                    ),
                    k,
                ),
            final(self).ins().hist() == old(self).ins().hist() + send_all(
                old(self).ins().chans(),
                0,
                translate_all(*f, old(child).outs().logs()[s as int]),
            ),
            final(self).outs() == old(self).outs(),
    {
        let msgs = child.drain_output(s);
        let ghost ms = translate_all(*f, msgs@);
        let ghost s0 = self.state();
        let ghost ichans = self.ins().chans();
        proof {
            assert(ms.take(0) =~= Seq::<T::ModelMsg>::empty());
            assert(send_all(ichans, 0, ms.take(0)) =~= Seq::<(int, T::ModelMsg)>::empty());
            assert(self.pending() =~= old(self).pending() + fold_emits(s0, ms.take(0)));
            assert(self.backlog() =~= old(self).backlog() + fold_feedback(s0, ms.take(0)));
            assert(self.ins().hist() =~= old(self).ins().hist() + send_all(ichans, 0, ms.take(0)));
            assert forall|k: int| 1 <= k < old(self).ins().logs().len() implies self.ins().logs()[k]
                == old(self).ins().logs()[k] + sent_to(send_all(ichans, 0, ms.take(0)), k) by {
                assert(sent_to(send_all(ichans, 0, ms.take(0)), k) =~= Seq::<T::ModelMsg>::empty());
                assert(old(self).ins().logs()[k] + Seq::<T::ModelMsg>::empty() =~= old(
                    self,
                ).ins().logs()[k]);
            }
        }
        let mut i: usize = 0;
        while i < msgs.len()
            invariant
                i <= msgs.len(),
                msgs@.len() == ms.len(),
                self.wf(),
                self.state() == fold_state(s0, ms.take(i as int)),
                self.pending() == old(self).pending() + fold_emits(s0, ms.take(i as int)),
                self.backlog() == old(self).backlog() + fold_feedback(s0, ms.take(i as int)),
                self.node() == old(self).node(),
                self.ins().chans() == ichans,
                self.ins().logs().len() == old(self).ins().logs().len(),
                self.ins().logs()[0] == old(self).ins().logs()[0],
                forall|k: int|
                    1 <= k < old(self).ins().logs().len() ==> self.ins().logs()[k] == old(
                        self,
                    ).ins().logs()[k] + sent_to(send_all(ichans, 0, ms.take(i as int)), k),
                self.ins().hist() == old(self).ins().hist() + send_all(
                    ichans,
                    0,
                    ms.take(i as int),
                ),
                self.outs() == old(self).outs(),
                s0 == old(self).state(),
            decreases msgs.len() - i,
        {
            let n = f.translate(&msgs[i]);
            let ghost mid = *self;
            self.update(&n);
            proof {
                assert(n == ms[i as int]);
                assert(ms.take(i as int + 1).drop_last() =~= ms.take(i as int));
                assert(ms.take(i as int + 1).last() == ms[i as int]);
                assert(fold_emits(s0, ms.take(i as int + 1)) == fold_emits(s0, ms.take(i as int))
                    + mid.state().emits(ms[i as int]));
                assert(old(self).pending() + fold_emits(s0, ms.take(i as int + 1)) =~= (old(
                    self,
                ).pending() + fold_emits(s0, ms.take(i as int))) + mid.state().emits(
                    ms[i as int],
                ));
                assert(old(self).backlog() + fold_feedback(s0, ms.take(i as int + 1)) =~= (old(
                    self,
                ).backlog() + fold_feedback(s0, ms.take(i as int))) + mid.state().feedback(
                    ms[i as int],
                ));
                let sa = send_all(ichans, 0, ms.take(i as int));
                let fo = fan_out(ichans, 0, ms[i as int]);
                assert(send_all(ichans, 0, ms.take(i as int + 1)) == sa + fo);
                assert(old(self).ins().hist() + (sa + fo) =~= (old(self).ins().hist() + sa) + fo);
                assert forall|k: int| 1 <= k < old(self).ins().logs().len() implies self.ins(
                ).logs()[k] == old(self).ins().logs()[k] + sent_to(sa + fo, k) by {
                    lemma_sent_to_add(sa, fo, k);
                    assert(self.ins().logs()[k] == mid.ins().logs()[k] + sent_to(fo, k));
                    assert(old(self).ins().logs()[k] + (sent_to(sa, k) + sent_to(fo, k)) =~= (old(
                        self,
                    ).ins().logs()[k] + sent_to(sa, k)) + sent_to(fo, k));
                }
            }
            i += 1;
        }
        proof {
            assert(ms.take(msgs@.len() as int) =~= ms);
        }
    }

    /// Allocate a fresh channel in the output graph, for wiring this
    /// component's view messages onward.
    pub fn view_txrx(&mut self) -> (r: (Transmitter, Receiver))
        requires
            old(self).wf(),
        ensures
            final(self).wf(),
            r.0.chan == old(self).outs().chans().len(),
            r.1.chan == r.0.chan,
            r.0.chan >= 1,
            final(self).outs().chans() == old(self).outs().chans().push(
                Seq::<Responder<Unmapped>>::empty(),
            ),
            final(self).outs().logs() == old(self).outs().logs(),
            final(self).outs().hist() == old(self).outs().hist(),
            final(self).state() == old(self).state(),
            final(self).pending() == old(self).pending(),
            final(self).scheduled() == old(self).scheduled(),
            final(self).backlog() == old(self).backlog(),
            final(self).ins() == old(self).ins(),
            final(self).node() == old(self).node(),
    {
        self.out_hub.txrx()
    }

    /// Send view messages from this component into a transmitter of its
    /// output graph, as a parent wiring a child's output onward does: every
    /// flushed message is re-sent, unchanged and depth-first, on that
    /// channel.
    pub fn tx_into(self, tx: &Transmitter) -> (c: Self)
        requires
            self.wf(),
            1 <= tx.chan,
            tx.chan < self.outs().chans().len(),
        ensures
            c.wf(),
            c.outs().chans() == self.outs().chans().update(
                0,
                self.outs().chans()[0].push(Responder::Mapped(Unmapped, tx.chan)),
            ),
            c.outs().logs() == self.outs().logs(),
            c.outs().hist() == self.outs().hist(),
            c.state() == self.state(),
            c.pending() == self.pending(),
            c.scheduled() == self.scheduled(),
            c.backlog() == self.backlog(),
            c.ins() == self.ins(),
            c.node() == self.node(),
    {
        let mut this = self;
        let rx = this.recv;
        this.out_hub.forward_map(&rx, tx, Unmapped);
        this
    }

    /// Register a recording responder on the public input channel, after the
    /// mailbox and the taps already there: every future model message sent
    /// into the instance is observed in its log, in send order. Messages
    /// sent before registration are never replayed.
    pub fn observe_input(&mut self) -> (s: usize)
        requires
            old(self).wf(),
        ensures
            final(self).wf(),
            s == old(self).ins().logs().len(),
            s >= 1,
            final(self).ins().logs() == old(self).ins().logs().push(Seq::<T::ModelMsg>::empty()),
            final(self).ins().chans() == old(self).ins().chans().update(
                0,
                old(self).ins().chans()[0].push(Responder::Sink(s)),
            ),
            final(self).ins().hist() == old(self).ins().hist(),
            final(self).outs() == old(self).outs(),
            final(self).state() == old(self).state(),
            final(self).pending() == old(self).pending(),
            final(self).scheduled() == old(self).scheduled(),
            final(self).backlog() == old(self).backlog(),
            final(self).node() == old(self).node(),
    {
        let rx = Receiver { chan: self.trns.chan };
        self.in_hub.respond(&rx)
    }

    /// Read the log of an input tap: every model message it has observed, in
    /// send order.
    pub fn read_input(&self, s: usize) -> (v: &Vec<T::ModelMsg>)
        requires
            s < self.ins().logs().len(),
        ensures
            v@ == self.ins().logs()[s as int],
    {
        self.in_hub.log_ref(s)
    }

    /// Allocate a fresh channel in the input graph, for wiring model
    /// messages in from outside.
    pub fn model_txrx(&mut self) -> (r: (Transmitter, Receiver))
        requires
            old(self).wf(),
        ensures
            final(self).wf(),
            r.0.chan == old(self).ins().chans().len(),
            r.1.chan == r.0.chan,
            r.0.chan >= 1,
            final(self).ins().chans() == old(self).ins().chans().push(
                Seq::<Responder<Unmapped>>::empty(),
            ),
            final(self).ins().logs() == old(self).ins().logs(),
            final(self).ins().hist() == old(self).ins().hist(),
            final(self).outs() == old(self).outs(),
            final(self).state() == old(self).state(),
            final(self).pending() == old(self).pending(),
            final(self).scheduled() == old(self).scheduled(),
            final(self).backlog() == old(self).backlog(),
            final(self).node() == old(self).node(),
    {
        self.in_hub.txrx()
    }

    /// Send model messages into this component from a receiver of its input
    /// graph: every message sent on that channel (through `send_to`) is
    /// delivered to the instance's mailbox and folded into the state. This
    /// is how a parent feeds messages to a child it owns.
    pub fn rx_from(self, rx: &Receiver) -> (c: Self)
        requires
            self.wf(),
            1 <= rx.chan,
            rx.chan < self.ins().chans().len(),
        ensures
            c.wf(),
            c.ins().chans() == self.ins().chans().update(
                rx.chan as int,
                self.ins().chans()[rx.chan as int].push(Responder::Sink(0)),
            ),
            c.ins().logs() == self.ins().logs(),
            c.ins().hist() == self.ins().hist(),
            c.outs() == self.outs(),
            c.state() == self.state(),
            c.pending() == self.pending(),
            c.scheduled() == self.scheduled(),
            c.backlog() == self.backlog(),
            c.node() == self.node(),
    {
        let mut this = self;
        this.in_hub.tee(rx, 0);
        this
    }

    /// Process one model message from the backlog, if one waits: the
    /// deferred half of re-injection through a `Subscriber`. Returns whether
    /// a message was processed.
    pub fn step_feedback(&mut self) -> (did: bool)
        requires
            old(self).wf(),
        ensures
            final(self).wf(),
            did == (old(self).backlog().len() > 0),
            old(self).backlog().len() == 0 ==> *final(self) == *old(self),
            old(self).backlog().len() > 0 ==> {
                &&& final(self).state() == old(self).state().next(old(self).backlog()[0])
                &&& final(self).pending() == old(self).pending() + old(self).state().emits(
                    old(self).backlog()[0],
                )
                &&& final(self).backlog() == old(self).backlog().drop_first() + old(
                    self,
                ).state().feedback(old(self).backlog()[0])
                &&& final(self).ins() == old(self).ins()
                &&& final(self).outs() == old(self).outs()
                &&& final(self).node() == old(self).node()
            },
    {
        if self.backlog.is_empty() {
            return false;
        }
        let m = self.backlog.remove(0);
        proof {
            assert(self.backlog@ =~= old(self).backlog().drop_first());
        }
        self.step(&m);
        true
    }

    /// Whether a flush is pending: the host's next tick boundary should call
    /// `flush` exactly when this holds.
    pub fn is_scheduled(&self) -> (b: bool)
        ensures
            b == self.scheduled(),
    {
        self.flush_scheduled
    }

    /// Access the component's state from outside the update cycle. A state
    /// value is observed either fully before or fully after an update call:
    /// no partially applied transition exists at this interface.
    pub fn with_state<N, F: Fn(&T) -> N>(&self, f: F) -> (r: N)
        requires
            call_requires(f, (&self.state(),)),
        ensures
            call_ensures(f, (&self.state(),), r),
    {
        f(&self.state)
    }

    /// A reference to the root DOM node of the built view.
    pub fn dom_ref(&self) -> (n: &T::DomNode)
        ensures
            *n == self.node(),
    {
        &self.gizmo
    }

    /// A reference to the built view; in this core the built view and its
    /// root node coincide, since the core never inspects node internals.
    pub fn gizmo_ref(&self) -> (n: &T::DomNode)
        ensures
            *n == self.node(),
    {
        &self.gizmo
    }

    /// Conclude construction: hand the built view to the host that keeps
    /// the surrounding instance alive.
    pub fn run(self) -> (n: T::DomNode)
        ensures
            n == self.node(),
    {
        let GizmoComponent { gizmo, .. } = self;
        gizmo
    }

    /// Run and initialize the component with a list of messages: fold each
    /// message into the state, in vector order, then run the flush those
    /// updates scheduled — every view message they emitted reaches the
    /// public output in one burst, in emission order — and hand the live
    /// instance back to the host that keeps it alive.
    pub fn run_init(self, msgs: Vec<T::ModelMsg>) -> (c: GizmoComponent<T>)
        requires
            self.wf(),
        ensures
            c.wf(),
            c.state() == fold_state(self.state(), msgs@),
            c.pending() == Seq::<T::ViewMsg>::empty(),
            !c.scheduled(),
            c.backlog() == self.backlog() + fold_feedback(self.state(), msgs@),
            c.node() == self.node(),
            c.ins().chans() == self.ins().chans(),
            c.ins().logs().len() == self.ins().logs().len(),
            c.ins().logs()[0] == self.ins().logs()[0],
            forall|k: int|
                1 <= k < self.ins().logs().len() ==> c.ins().logs()[k] == self.ins().logs()[k]
                    + sent_to(send_all(self.ins().chans(), 0, msgs@), k),
            c.ins().hist() == self.ins().hist() + send_all(self.ins().chans(), 0, msgs@),
            c.outs().chans() == self.outs().chans(),
            c.outs().logs().len() == self.outs().logs().len(),
            forall|s: int|
                0 <= s < self.outs().logs().len() ==> c.outs().logs()[s] == self.outs().logs()[s]
                    + sent_to(
                    send_all(
                        self.outs().chans(),
                        0,
                        self.pending() + fold_emits(self.state(), msgs@),
                    ),
                    s,
                ),
            c.outs().hist() == self.outs().hist() + send_all(
                self.outs().chans(),
                0,
                self.pending() + fold_emits(self.state(), msgs@),
            ),
    {
        let ghost s0 = self.state();
        let ghost ichans = self.ins().chans();
        let mut this = self;
        proof {
            assert(msgs@.take(0) =~= Seq::<T::ModelMsg>::empty());
            assert(send_all(ichans, 0, msgs@.take(0)) =~= Seq::<(int, T::ModelMsg)>::empty());
            assert(this.pending() =~= self.pending() + fold_emits(s0, msgs@.take(0)));
            assert(this.backlog() =~= self.backlog() + fold_feedback(s0, msgs@.take(0)));
            assert(this.ins().hist() =~= self.ins().hist() + send_all(ichans, 0, msgs@.take(0)));
            assert forall|k: int| 1 <= k < self.ins().logs().len() implies this.ins().logs()[k]
                == self.ins().logs()[k] + sent_to(send_all(ichans, 0, msgs@.take(0)), k) by {
                assert(sent_to(send_all(ichans, 0, msgs@.take(0)), k) =~= Seq::<
                    T::ModelMsg,
                >::empty());
                assert(self.ins().logs()[k] + Seq::<T::ModelMsg>::empty() =~= self.ins().logs()[k]);
            }
        }
        let mut i: usize = 0;
        while i < msgs.len()
            invariant
                i <= msgs.len(),
                this.wf(),
                this.state() == fold_state(s0, msgs@.take(i as int)),
                this.pending() == self.pending() + fold_emits(s0, msgs@.take(i as int)),
                this.backlog() == self.backlog() + fold_feedback(s0, msgs@.take(i as int)),
                this.node() == self.node(),
                this.ins().chans() == ichans,
                this.ins().logs().len() == self.ins().logs().len(),
                this.ins().logs()[0] == self.ins().logs()[0],
                forall|k: int|
                    1 <= k < self.ins().logs().len() ==> this.ins().logs()[k] == self.ins().logs()[
                        k
                    ] + sent_to(send_all(ichans, 0, msgs@.take(i as int)), k),
                this.ins().hist() == self.ins().hist() + send_all(
                    ichans,
                    0,
                    msgs@.take(i as int),
                ),
                this.outs() == self.outs(),
                s0 == self.state(),
            decreases msgs.len() - i,
        {
            let ghost mid = this;
            this.update(&msgs[i]);
            proof {
                assert(msgs@.take(i as int + 1).drop_last() =~= msgs@.take(i as int));
                assert(msgs@.take(i as int + 1).last() == msgs@[i as int]);
                assert(fold_emits(s0, msgs@.take(i as int + 1)) == fold_emits(
                    s0,
                    msgs@.take(i as int),
                ) + mid.state().emits(msgs@[i as int]));
                assert(self.pending() + fold_emits(s0, msgs@.take(i as int + 1)) =~= (self.pending()
                    + fold_emits(s0, msgs@.take(i as int))) + mid.state().emits(msgs@[i as int]));
                assert(self.backlog() + fold_feedback(s0, msgs@.take(i as int + 1)) =~= (
                self.backlog() + fold_feedback(s0, msgs@.take(i as int)))
                    + mid.state().feedback(msgs@[i as int]));
                let sa = send_all(ichans, 0, msgs@.take(i as int));
                let fo = fan_out(ichans, 0, msgs@[i as int]);
                assert(send_all(ichans, 0, msgs@.take(i as int + 1)) == sa + fo);
                assert(self.ins().hist() + (sa + fo) =~= (self.ins().hist() + sa) + fo);
                assert forall|k: int| 1 <= k < self.ins().logs().len() implies this.ins().logs()[k]
                    == self.ins().logs()[k] + sent_to(sa + fo, k) by {
                    lemma_sent_to_add(sa, fo, k);
                    assert(this.ins().logs()[k] == mid.ins().logs()[k] + sent_to(fo, k));
                    assert(self.ins().logs()[k] + (sent_to(sa, k) + sent_to(fo, k)) =~= (
                    self.ins().logs()[k] + sent_to(sa, k)) + sent_to(fo, k));
                }
            }
            i += 1;
        }
        proof {
            assert(msgs@.take(msgs@.len() as int) =~= msgs@);
        }
        this.flush();
        this
    }
}

} // verus!
