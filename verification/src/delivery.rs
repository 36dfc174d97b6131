//! The delivery loop: the one place from which callbacks are invoked.
//!
//! Workers hand their requests to the loop through a queue. The loop takes
//! them in the order in which they came and finds, for each answer, the
//! callback that is registered for its subscription.

use crate::payload::{serialize_results, Payload};
use serde_json::Value;
use std::collections::BTreeMap;
use std::collections::VecDeque;
use vstd::prelude::*;

verus! {

/// What a worker asks of the delivery loop.
#[derive(Debug)]
pub enum Request {
    /// Hand `next` to the callback of `subscription`.
    Dispatch { next: Value, subscription: i32 },
    /// Forget the callback of `subscription`.
    Remove { subscription: i32 },
}

impl Request {
    /// The subscription that the request is about.
    pub open spec fn subscription(self) -> i32 {
        match self {
            Request::Dispatch { subscription, .. } => subscription,
            Request::Remove { subscription } => subscription,
        }
    }
}

/// One invocation of a callback: the subscription whose callback is invoked
/// and the text it is invoked with.
#[derive(Debug, PartialEq, Eq)]
pub struct Delivery {
    pub subscription: i32,
    pub payload: String,
}

/// A `Delivery` as contracts see it.
pub struct Delivered {
    pub subscription: i32,
    pub payload: Seq<char>,
}

impl View for Delivery {
    type V = Delivered;

    open spec fn view(&self) -> Delivered {
        Delivered { subscription: self.subscription, payload: self.payload@ }
    }
}

impl DeepView for Delivery {
    type V = Delivered;

    open spec fn deep_view(&self) -> Delivered {
        self@
    }
}

/// The callbacks that are registered once the loop has handled `request`.
pub open spec fn handled<C>(callbacks: Map<i32, C>, request: Request) -> Map<i32, C> {
    match request {
        Request::Dispatch { .. } => callbacks,
        Request::Remove { subscription } => callbacks.remove(subscription),
    }
}

/// The invocation that `request` asks for: for an answer that can be
/// written, the invocation of the callback of its subscription with the
/// answer's text. A request to forget a callback asks for none.
pub open spec fn written(request: Request) -> Option<Delivered> {
    match request {
        Request::Dispatch { next, subscription } => match (Payload::Next {
            next,
            subscription,
        }).text() {
            Some(payload) => Some(Delivered { subscription, payload }),
            None => None,
        },
        Request::Remove { .. } => None,
    }
}

/// The invocation that handling `request` leads to, if any: the one that it
/// asks for, where its subscription has a callback. An answer for a
/// subscription without a callback is dropped.
pub open spec fn delivered<C>(callbacks: Map<i32, C>, request: Request) -> Option<Delivered> {
    if callbacks.contains_key(request.subscription()) {
        written(request)
    } else {
        None
    }
}

/// The callbacks that are registered once the loop has handled `requests`,
/// first to last.
pub open spec fn callbacks_after<C>(callbacks: Map<i32, C>, requests: Seq<Request>) -> Map<i32, C>
    decreases requests.len(),
{
    if requests.len() == 0 {
        callbacks
    } else {
        handled(callbacks_after(callbacks, requests.drop_last()), requests.last())
    }
}

/// The invocations that handling `requests`, first to last, leads to, in the
/// order in which they are made.
pub open spec fn deliveries<C>(callbacks: Map<i32, C>, requests: Seq<Request>) -> Seq<Delivered>
    decreases requests.len(),
{
    if requests.len() == 0 {
        Seq::empty()
    } else {
        let before = requests.drop_last();
        let earlier = deliveries(callbacks, before);
        match delivered(callbacks_after(callbacks, before), requests.last()) {
            Some(d) => earlier.push(d),
            None => earlier,
        }
    }
}

/// Handling `first` and then `second` is handling the two in a row.
pub proof fn lemma_handle_in_turn<C>(
    callbacks: Map<i32, C>,
    first: Seq<Request>,
    second: Seq<Request>,
)
    ensures
        callbacks_after(callbacks, first + second) == callbacks_after(
            callbacks_after(callbacks, first),
            second,
        ),
        deliveries(callbacks, first + second) == deliveries(callbacks, first) + deliveries(
            callbacks_after(callbacks, first),
            second,
        ),
    decreases second.len(),
{
    if second.len() == 0 {
        assert(first + second =~= first);
        assert(deliveries(callbacks, first) + Seq::<Delivered>::empty() =~= deliveries(
            callbacks,
            first,
        ));
    } else {
        let all = first + second;
        assert(all.drop_last() =~= first + second.drop_last());
        assert(all.last() == second.last());
        lemma_handle_in_turn(callbacks, first, second.drop_last());
        let mid = callbacks_after(callbacks, first);
        let earlier = deliveries(mid, second.drop_last());
        match delivered(callbacks_after(mid, second.drop_last()), second.last()) {
            Some(d) => {
                assert((deliveries(callbacks, first) + earlier).push(d) =~= deliveries(
                    callbacks,
                    first,
                ) + earlier.push(d));
            },
            None => {},
        }
    }
}

/// The state of a delivery loop as contracts see it.
pub struct QueueView<C> {
    /// Whether the loop still takes requests.
    pub open: bool,
    /// The callback of each subscription that has one.
    pub callbacks: Map<i32, C>,
    /// The requests that wait to be handled, oldest first.
    pub pending: Seq<Request>,
}

impl<C> QueueView<C> {
    /// The state once `request` has been posted: it waits behind the requests
    /// that came before. A loop that was torn down takes none.
    pub open spec fn post(self, request: Request) -> QueueView<C> {
        if self.open {
            QueueView { pending: self.pending.push(request), ..self }
        } else {
            self
        }
    }

    /// The state once `callback` has been registered for `subscription`.
    pub open spec fn register(self, callback: C, subscription: i32) -> QueueView<C> {
        if self.open {
            QueueView { callbacks: self.callbacks.insert(subscription, callback), ..self }
        } else {
            self
        }
    }

    /// The state once `requests` have been posted, first to last.
    pub open spec fn post_all(self, requests: Seq<Request>) -> QueueView<C>
        decreases requests.len(),
    {
        if requests.len() == 0 {
            self
        } else {
            self.post_all(requests.drop_last()).post(requests.last())
        }
    }

    /// The state once the callback of `subscription` has been forgotten. The
    /// answers that wait for it find no callback and are dropped.
    pub open spec fn forget(self, subscription: i32) -> QueueView<C> {
        QueueView { callbacks: self.callbacks.remove(subscription), ..self }
    }

    /// The state once the oldest `n` requests have been handled.
    pub open spec fn advance(self, n: int) -> QueueView<C> {
        QueueView {
            open: self.open,
            callbacks: callbacks_after(self.callbacks, self.pending.take(n)),
            pending: self.pending.skip(n),
        }
    }

    /// The number of requests that the loop handles until it has one
    /// invocation to make: the requests that lead to none, and the one that
    /// leads to it. Where no request leads to an invocation, all of them.
    pub open spec fn next_stop(self) -> int
        decreases self.pending.len(),
    {
        if self.pending.len() == 0 {
            0
        } else if delivered(self.callbacks, self.pending[0]) is Some {
            1
        } else {
            1 + self.advance(1).next_stop()
        }
    }

    /// The invocation that the loop makes next, if the waiting requests lead
    /// to one.
    pub open spec fn next_delivered(self) -> Option<Delivered>
        decreases self.pending.len(),
    {
        if self.pending.len() == 0 {
            None
        } else if delivered(self.callbacks, self.pending[0]) is Some {
            delivered(self.callbacks, self.pending[0])
        } else {
            self.advance(1).next_delivered()
        }
    }

    /// The state of a new loop: it takes requests, nothing is registered and
    /// nothing waits.
    pub open spec fn opened() -> QueueView<C> {
        QueueView { open: true, callbacks: Map::empty(), pending: Seq::empty() }
    }

    /// The state once the loop was torn down: nothing is registered and
    /// nothing waits.
    pub open spec fn closed() -> QueueView<C> {
        QueueView { open: false, callbacks: Map::empty(), pending: Seq::empty() }
    }
}

/// Handling `a` requests and then `b` more is handling `a + b`.
pub proof fn lemma_advance_in_turn<C>(s: QueueView<C>, a: int, b: int)
    requires
        0 <= a,
        0 <= b,
        a + b <= s.pending.len(),
    ensures
        s.advance(a).advance(b) == s.advance(a + b),
{
    let first = s.pending.take(a);
    let second = s.pending.skip(a).take(b);
    assert(first + second =~= s.pending.take(a + b));
    assert(s.pending.skip(a).skip(b) =~= s.pending.skip(a + b));
    lemma_handle_in_turn(s.callbacks, first, second);
}

/// Handling the oldest request alone.
pub proof fn lemma_advance_one<C>(s: QueueView<C>)
    requires
        s.pending.len() > 0,
    ensures
        s.advance(1).callbacks == handled(s.callbacks, s.pending[0]),
        s.advance(1).pending == s.pending.skip(1),
        s.advance(1).open == s.open,
        deliveries(s.callbacks, s.pending.take(1)) == match delivered(s.callbacks, s.pending[0]) {
            Some(d) => seq![d],
            None => Seq::empty(),
        },
{
    let one = s.pending.take(1);
    assert(one.drop_last() =~= Seq::<Request>::empty());
    assert(one.last() == s.pending[0]);
    assert(callbacks_after(s.callbacks, one.drop_last()) == s.callbacks);
    assert(deliveries(s.callbacks, one.drop_last()) =~= Seq::<Delivered>::empty());
    match delivered(s.callbacks, s.pending[0]) {
        Some(d) => {
            assert(Seq::<Delivered>::empty().push(d) =~= seq![d]);
        },
        None => {},
    }
}

/// What the waiting requests lead to is the next invocation, then what the
/// requests behind it lead to.
pub proof fn lemma_next_then_rest<C>(s: QueueView<C>)
    ensures
        0 <= s.next_stop() <= s.pending.len(),
        s.next_delivered() is Some ==> s.next_stop() >= 1,
        s.next_delivered() is None ==> s.next_stop() == s.pending.len(),
        deliveries(s.callbacks, s.pending) == match s.next_delivered() {
            Some(d) => seq![d] + deliveries(
                s.advance(s.next_stop()).callbacks,
                s.advance(s.next_stop()).pending,
            ),
            None => Seq::empty(),
        },
        callbacks_after(s.callbacks, s.pending) == callbacks_after(
            s.advance(s.next_stop()).callbacks,
            s.advance(s.next_stop()).pending,
        ),
    decreases s.pending.len(),
{
    if s.pending.len() == 0 {
        assert(s.pending.skip(0) =~= s.pending);
    } else {
        let one = s.pending.take(1);
        let rest = s.pending.skip(1);
        assert(one + rest =~= s.pending);
        lemma_handle_in_turn(s.callbacks, one, rest);
        lemma_advance_one(s);
        if delivered(s.callbacks, s.pending[0]) is Some {
        } else {
            let t = s.advance(1);
            lemma_next_then_rest(t);
            lemma_advance_in_turn(s, 1, t.next_stop());
            assert(Seq::<Delivered>::empty() + deliveries(t.callbacks, t.pending) =~= deliveries(
                t.callbacks,
                t.pending,
            ));
        }
    }
}

/// The delivery loop of one service: the callbacks of the pending
/// subscriptions and the requests of their workers. Only the thread that
/// owns the callbacks takes requests out of it.
pub struct DeferCallbackQueue<C> {
    open: bool,
    next_callbacks: BTreeMap<i32, C>,
    pending: VecDeque<Request>,
}

impl<C> View for DeferCallbackQueue<C> {
    type V = QueueView<C>;

    closed spec fn view(&self) -> QueueView<C> {
        QueueView { open: self.open, callbacks: self.next_callbacks@, pending: self.pending@ }
    }
}

impl<C> DeferCallbackQueue<C> {
    /// A loop that takes requests, with no callback and no request yet.
    pub fn new() -> (queue: Self)
        ensures
            queue@ == QueueView::<C>::opened(),
    {
        DeferCallbackQueue { open: true, next_callbacks: BTreeMap::new(), pending: VecDeque::new() }
    }

    /// Whether the loop still takes requests.
    pub fn is_open(&self) -> (open: bool)
        ensures
            open == self@.open,
    {
        self.open
    }

    /// The number of requests that wait.
    pub fn pending_len(&self) -> (n: usize)
        ensures
            n == self@.pending.len(),
    {
        self.pending.len()
    }

    /// The callback that is registered for `subscription`.
    pub fn callback(&self, subscription: i32) -> (callback: Option<&C>)
        ensures
            match callback {
                Some(c) => self@.callbacks.contains_key(subscription) && *c
                    == self@.callbacks[subscription],
                None => !self@.callbacks.contains_key(subscription),
            },
    {
        self.next_callbacks.get(&subscription)
    }

    /// Registers `next_callback` for `subscription`, in place of the one that
    /// was registered for it, if any. A loop that was torn down registers
    /// nothing.
    pub fn add_subscription(&mut self, next_callback: C, subscription: i32)
        ensures
            final(self)@ == old(self)@.register(next_callback, subscription),
    {
        if self.open {
            let _ = self.next_callbacks.insert(subscription, next_callback);
        }
    }

    /// Forgets the callback of `subscription` at once, and says whether one
    /// was registered. The answers that wait for it are dropped when their
    /// turn comes. Only the thread that owns the callbacks calls this.
    pub fn forget_callback(&mut self, subscription: i32) -> (found: bool)
        ensures
            final(self)@ == old(self)@.forget(subscription),
            found == old(self)@.callbacks.contains_key(subscription),
    {
        let removed = self.next_callbacks.remove(&subscription);
        removed.is_some()
    }

    /// Puts the answer `next` of `subscription` behind the requests that
    /// wait, and says whether the loop took it and has to be woken. A loop
    /// that was torn down takes nothing.
    pub fn dispatch(&mut self, next: Value, subscription: i32) -> (queued: bool)
        ensures
            final(self)@ == old(self)@.post(Request::Dispatch { next, subscription }),
            queued == old(self)@.open,
    {
        if self.open {
            self.pending.push_back(Request::Dispatch { next, subscription });
            true
        } else {
            false
        }
    }

    /// Asks the loop to forget the callback of `subscription` once it has
    /// handled the requests that wait, and says whether the loop took the
    /// request and has to be woken.
    pub fn remove_callback(&mut self, subscription: i32) -> (queued: bool)
        ensures
            final(self)@ == old(self)@.post(Request::Remove { subscription }),
            queued == old(self)@.open,
    {
        if self.open {
            self.pending.push_back(Request::Remove { subscription });
            true
        } else {
            false
        }
    }

    /// Handles the waiting requests, oldest first, until one leads to an
    /// invocation, and returns that invocation; `None` once no request is
    /// left. The caller invokes the callback of the returned subscription,
    /// which is registered, and asks again.
    pub fn next_delivery(&mut self) -> (delivery: Option<Delivery>)
        ensures
            final(self)@ == old(self)@.advance(old(self)@.next_stop()),
            0 <= old(self)@.next_stop() <= old(self)@.pending.len(),
            match delivery {
                Some(d) => {
                    &&& old(self)@.next_delivered() == Some(d@)
                    &&& final(self)@.callbacks.contains_key(d.subscription)
                },
                None => old(self)@.next_delivered() is None && final(self)@.pending.len() == 0,
            },
    {
        let ghost start = self@;
        let ghost mut n: int = 0;
        proof {
            assert(start.pending.take(0) =~= Seq::<Request>::empty());
            assert(start.pending.skip(0) =~= start.pending);
        }
        loop
            invariant
                start == old(self)@,
                0 <= n <= start.pending.len(),
                self@ == start.advance(n),
                start.next_stop() == n + self@.next_stop(),
                start.next_delivered() == self@.next_delivered(),
            decreases self.pending.len(),
        {
            let ghost current = self@;
            match self.pending.pop_front() {
                None => {
                    return None;
                },
                Some(request) => {
                    proof {
                        lemma_advance_one(current);
                        lemma_advance_in_turn(start, n, 1);
                        assert(current.pending.subrange(1, current.pending.len() as int)
                            =~= current.pending.skip(1));
                    }
                    match request {
                        Request::Remove { subscription } => {
                            let _ = self.next_callbacks.remove(&subscription);
                        },
                        Request::Dispatch { next, subscription } => {
                            if self.next_callbacks.contains_key(&subscription) {
                                let payload = Payload::Next { next, subscription };
                                match serialize_results(&payload) {
                                    Some(payload) => {
                                        return Some(Delivery { subscription, payload });
                                    },
                                    None => {},
                                }
                            }
                        },
                    }
                    proof {
                        n = n + 1;
                    }
                },
            }
        }
    }

    /// Handles every waiting request, oldest first, and returns the
    /// invocations that they lead to, in the order in which the caller is to
    /// make them.
    pub fn drain(&mut self) -> (made: Vec<Delivery>)
        ensures
            made.deep_view() == deliveries(old(self)@.callbacks, old(self)@.pending),
            final(self)@ == old(self)@.advance(old(self)@.pending.len() as int),
            final(self)@.pending.len() == 0,
    {
        let ghost start = self@;
        let ghost mut m: int = 0;
        let mut made: Vec<Delivery> = Vec::new();
        proof {
            assert(start.pending.take(0) =~= Seq::<Request>::empty());
            assert(start.pending.skip(0) =~= start.pending);
            assert(made.deep_view() =~= Seq::<Delivered>::empty());
            assert(Seq::<Delivered>::empty() + deliveries(start.callbacks, start.pending)
                =~= deliveries(start.callbacks, start.pending));
        }
        loop
            invariant
                start == old(self)@,
                0 <= m <= start.pending.len(),
                self@ == start.advance(m),
                made.deep_view() + deliveries(self@.callbacks, self@.pending) == deliveries(
                    start.callbacks,
                    start.pending,
                ),
            decreases self@.pending.len(),
        {
            let ghost current = self@;
            let ghost before = made.deep_view();
            proof {
                lemma_next_then_rest(current);
                lemma_advance_in_turn(start, m, current.next_stop());
            }
            match self.next_delivery() {
                Some(delivery) => {
                    let ghost d = delivery@;
                    made.push(delivery);
                    proof {
                        m = m + current.next_stop();
                        assert(made.deep_view() =~= before.push(d));
                        assert(before.push(d) + deliveries(self@.callbacks, self@.pending)
                            =~= before + (seq![d] + deliveries(self@.callbacks, self@.pending)));
                    }
                },
                None => {
                    proof {
                        m = m + current.next_stop();
                        assert(before + Seq::<Delivered>::empty() =~= before);
                    }
                    return made;
                },
            }
        }
    }

    /// Tears the loop down: every callback is forgotten, every waiting
    /// request is dropped, and no request is taken from now on.
    pub fn destroy(&mut self)
        ensures
            final(self)@ == QueueView::<C>::closed(),
    {
        self.open = false;
        self.next_callbacks.clear();
        self.pending.clear();
    }
}

} // verus!
