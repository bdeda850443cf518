//! Worked examples of the `Component` contract.
//!
//! `Counter` is the classic click counter: it folds clicks into a count and
//! sends the new count out as its view message after every single increment.
//! `Echo` is the stateless component: its model and view message types
//! coincide and every incoming message is forwarded, unchanged, as the sole
//! view message.

use vstd::prelude::*;
use crate::msg::Message;
use crate::txrx::{Transmitter, Receiver, Mapper, Translate};
use crate::component::{Component, Emitter, Subscriber};

verus! {

/// A worked example of a defunctionalized mapping function for the signal
/// graph: halves every message.
#[derive(Clone, Copy)]
pub struct Halve;

impl Mapper<u64> for Halve {
    open spec fn map_spec(self, m: u64) -> u64 {
        m / 2
    }

    fn map(&self, m: &u64) -> u64 {
        *m / 2
    }
}

/// A worked example of a translation between message types: each pulse a
/// child component emits becomes one click for a parent counter.
pub struct ClickPerPulse;

impl Translate<u64, CounterIn> for ClickPerPulse {
    open spec fn translate_spec(self, m: u64) -> CounterIn {
        CounterIn::Click
    }

    fn translate(&self, m: &u64) -> CounterIn {
        CounterIn::Click
    }
}

/// A model message for the counter.
#[derive(Clone, Copy, Debug, PartialEq, Eq, Structural)]
pub enum CounterIn {
    /// One click: increment the count and draw it.
    Click,
    /// A double click: increment once now and re-inject one more `Click`
    /// through the subscriber, to be processed after this update returns.
    DoubleClick,
}

impl Message for CounterIn {
    fn dup(&self) -> Self {
        *self
    }
}

/// A component that counts clicks. Its view messages carry the count to
/// draw; the count saturates at the top of its range rather than wrap.
pub struct Counter {
    pub count: u64,
}

impl Component for Counter {
    type ModelMsg = CounterIn;

    type ViewMsg = u64;

    type DomNode = ();

    open spec fn next(self, m: CounterIn) -> Counter {
        if self.count < u64::MAX {
            Counter { count: (self.count + 1) as u64 }
        } else {
            self
        }
    }

    open spec fn emits(self, m: CounterIn) -> Seq<u64> {
        seq![self.next(m).count]
    }

    open spec fn feedback(self, m: CounterIn) -> Seq<CounterIn> {
        match m {
            CounterIn::Click => Seq::empty(),
            CounterIn::DoubleClick => seq![CounterIn::Click],
        }
    }

    open spec fn renders(self, tx: Transmitter, rx: Receiver, node: ()) -> bool {
        true
    }

    fn update(&mut self, msg: &CounterIn, tx_view: &mut Emitter<u64>, sub: &mut Subscriber<CounterIn>) {
        if self.count < u64::MAX {
            self.count = self.count + 1;
        }
        let c = self.count;
        tx_view.send(&c);
        match msg {
            CounterIn::Click => {},
            CounterIn::DoubleClick => {
                let again = CounterIn::Click;
                sub.send_async(&again);
            },
        }
        proof {
            assert(final(tx_view).sent() =~= old(tx_view).sent() + old(self).emits(*msg));
            assert(final(sub).queued() =~= old(sub).queued() + old(self).feedback(*msg));
        }
    }

    fn view(&self, tx: Transmitter, rx: Receiver) -> (node: ()) {
        ()
    }
}

/// A component whose single update emits several view messages: one model
/// message produces the value, its half and its quarter, in that order. All
/// three join one batch and flush together.
pub struct Cascade;

impl Component for Cascade {
    type ModelMsg = u64;

    type ViewMsg = u64;

    type DomNode = ();

    open spec fn next(self, m: u64) -> Cascade {
        self
    }

    open spec fn emits(self, m: u64) -> Seq<u64> {
        seq![m, m / 2, m / 4]
    }

    open spec fn feedback(self, m: u64) -> Seq<u64> {
        Seq::empty()
    }

    open spec fn renders(self, tx: Transmitter, rx: Receiver, node: ()) -> bool {
        true
    }

    fn update(&mut self, msg: &u64, tx_view: &mut Emitter<u64>, sub: &mut Subscriber<u64>) {
        tx_view.send(msg);
        let h = *msg / 2;
        tx_view.send(&h);
        let q = *msg / 4;
        tx_view.send(&q);
        proof {
            assert(final(tx_view).sent() =~= old(tx_view).sent() + old(self).emits(*msg));
            assert(final(sub).queued() =~= old(sub).queued() + old(self).feedback(*msg));
        }
    }

    fn view(&self, tx: Transmitter, rx: Receiver) -> (node: ()) {
        ()
    }
}

/// The stateless component: model and view message types coincide, and
/// every incoming message is forwarded straight to the view, unchanged.
pub struct Echo;

impl Component for Echo {
    type ModelMsg = u64;

    type ViewMsg = u64;

    type DomNode = ();

    open spec fn next(self, m: u64) -> Echo {
        self
    }

    open spec fn emits(self, m: u64) -> Seq<u64> {
        seq![m]
    }

    open spec fn feedback(self, m: u64) -> Seq<u64> {
        Seq::empty()
    }

    open spec fn renders(self, tx: Transmitter, rx: Receiver, node: ()) -> bool {
        true
    }

    fn update(&mut self, msg: &u64, tx_view: &mut Emitter<u64>, sub: &mut Subscriber<u64>) {
        tx_view.send(msg);
        proof {
            assert(final(tx_view).sent() =~= old(tx_view).sent() + old(self).emits(*msg));
            assert(final(sub).queued() =~= old(sub).queued() + old(self).feedback(*msg));
        }
    }

    fn view(&self, tx: Transmitter, rx: Receiver) -> (node: ()) {
        ()
    }
}

} // verus!
