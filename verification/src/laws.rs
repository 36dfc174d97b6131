//! What holds of every service, over every course of events.
//!
//! A course of events is a sequence of `Op`s: the requests of the caller,
//! what the workers receive, the wake-ups of the delivery loop. The functions
//! `after_all` and `invoked_by` say what state such a course leaves and which
//! callbacks it invokes; the proofs below are about them.

use crate::delivery::{deliveries, lemma_next_then_rest, Delivered, QueueView, Request};
use crate::delivery_laws::{
    answers_of, answers_waiting, delivered_at, in_turn, invocations_for,
    lemma_callback_gets_its_answers, lemma_callback_stays, lemma_callbacks_only_leave,
    lemma_next_delivered_is_last_handled, unasked,
};
use crate::error::ServiceError;
use crate::json::{json_read, json_written};
use crate::payload::{next_text, results_text};
use crate::service::{immediate, EngineReply, Fetched, ServiceView, WorkerEvent};
use serde_json::Value;
use vstd::prelude::*;

verus! {

/// One event in the life of a service.
pub enum Op<H, C> {
    /// A request, with the engine's reply to it.
    Fetch { next_callback: C, reply: EngineReply<H> },
    /// The caller cancels a subscription.
    Unsubscribe { key: i32 },
    /// The worker of `key` has received `event`.
    Worker { key: i32, event: WorkerEvent },
    /// The delivery loop handles requests up to its next invocation.
    Deliver,
    /// The delivery loop is torn down.
    Destroy,
}

impl<H, C> ServiceView<H, C> {
    /// The state after `op`.
    pub open spec fn after(self, op: Op<H, C>) -> ServiceView<H, C> {
        match op {
            Op::Fetch { next_callback, reply } => self.after_fetch(next_callback, reply),
            Op::Unsubscribe { key } => self.after_unsubscribe(key),
            Op::Worker { key, event } => self.after_event(key, event),
            Op::Deliver => self.after_delivery(),
            Op::Destroy => self.after_destroy(),
        }
    }

    /// The invocation of a callback that `op` leads to, if any.
    pub open spec fn invoked(self, op: Op<H, C>) -> Option<Delivered> {
        match op {
            Op::Deliver => self.queue.next_delivered(),
            _ => None,
        }
    }

    /// The state after `ops`, first to last.
    pub open spec fn after_all(self, ops: Seq<Op<H, C>>) -> ServiceView<H, C>
        decreases ops.len(),
    {
        if ops.len() == 0 {
            self
        } else {
            self.after_all(ops.drop_last()).after(ops.last())
        }
    }

    /// The invocations that `ops` lead to, in the order in which they are
    /// made.
    pub open spec fn invoked_by(self, ops: Seq<Op<H, C>>) -> Seq<Delivered>
        decreases ops.len(),
    {
        if ops.len() == 0 {
            Seq::empty()
        } else {
            let earlier = self.invoked_by(ops.drop_last());
            match self.after_all(ops.drop_last()).invoked(ops.last()) {
                Some(d) => earlier.push(d),
                None => earlier,
            }
        }
    }

    /// The state once the delivery loop has handled its oldest `n` requests.
    pub open spec fn after_handling(self, n: int) -> ServiceView<H, C> {
        ServiceView { queue: self.queue.advance(n), ..self }
    }
}

/// Handling the oldest `n` requests leaves a well-formed service well-formed.
pub proof fn lemma_handling_keeps_well_formed<H, C>(s: ServiceView<H, C>, n: int)
    requires
        s.well_formed(),
        0 <= n <= s.queue.pending.len(),
    ensures
        s.after_handling(n).well_formed(),
{
    let pending = s.queue.pending;
    let callbacks = s.queue.callbacks;
    let t = s.after_handling(n);
    let left = t.queue.pending;
    lemma_callbacks_only_leave(callbacks, pending.take(n));
    assert forall|i: int| 0 <= i < left.len() implies #[trigger] left[i] == pending[n + i] by {}
    if t.queue.open {
        assert forall|key: i32| #[trigger] t.subscriptions.contains_key(key) implies {
            t.queue.callbacks.contains_key(key)
        } by {
            assert(unasked(pending, n, key));
            lemma_callback_stays(callbacks, pending, n, key);
        }
    }
}

/// Every event leaves a well-formed service well-formed, and takes no key
/// back.
pub proof fn lemma_well_formed_is_kept<H, C>(s: ServiceView<H, C>, op: Op<H, C>)
    requires
        s.well_formed(),
    ensures
        s.after(op).well_formed(),
        s.after(op).issued >= s.issued,
{
    match op {
        Op::Deliver => {
            lemma_next_then_rest(s.queue);
            lemma_handling_keeps_well_formed(s, s.queue.next_stop());
        },
        _ => {},
    }
}

/// Every course of events leaves a well-formed service well-formed, and takes
/// no key back.
pub proof fn lemma_well_formed_throughout<H, C>(s: ServiceView<H, C>, ops: Seq<Op<H, C>>)
    requires
        s.well_formed(),
    ensures
        s.after_all(ops).well_formed(),
        s.after_all(ops).issued >= s.issued,
    decreases ops.len(),
{
    if ops.len() > 0 {
        lemma_well_formed_throughout(s, ops.drop_last());
        lemma_well_formed_is_kept(s.after_all(ops.drop_last()), ops.last());
    }
}

/// A query that resolves at once is answered with its results, and leaves
/// the registry and the delivery loop as they were: no entry stays behind
/// under the key that the query took.
pub proof fn lemma_immediate_query_leaves_no_entry<H, C>(
    s: ServiceView<H, C>,
    next_callback: C,
    subscription: H,
    results: String,
)
    requires
        s.well_formed(),
        !s.exhausted(),
    ensures
        ({
            let reply = EngineReply::Completed { subscription, results: Some(results) };
            let t = s.after_fetch(next_callback, reply);
            let value = json_read(results@);
            &&& t.subscriptions == s.subscriptions
            &&& !t.subscriptions.contains_key(s.next_key())
            &&& t.queue == s.queue
            &&& t.issued == s.issued + 1
            &&& s.fetch_result(reply) == immediate(value)
            &&& value is Some && json_written(value->0) is Some ==> s.fetch_result(reply) == Ok::<
                Fetched,
                ServiceError,
            >(Fetched::Results { payload: results_text(json_written(value->0)->0) })
        }),
{
    let reply = EngineReply::Completed { subscription, results: Some(results) };
    let t = s.after_fetch(next_callback, reply);
    assert(!s.subscriptions.contains_key(s.next_key()));
    assert(t.subscriptions =~= s.subscriptions);
}

/// The key of a pending query is new: it is larger than every key that the
/// service has handed out before, whatever happened in between, and nothing
/// was kept under it.
pub proof fn lemma_pending_keys_are_new<H, C>(
    s: ServiceView<H, C>,
    first_callback: C,
    first_reply: EngineReply<H>,
    between: Seq<Op<H, C>>,
    second_callback: C,
    second_reply: EngineReply<H>,
)
    requires
        s.well_formed(),
        s.fetch_result(first_reply) matches Ok(Fetched::Pending { .. }),
        s.after_fetch(first_callback, first_reply).after_all(between).fetch_result(
            second_reply,
        ) matches Ok(Fetched::Pending { .. }),
    ensures
        ({
            let t = s.after_fetch(first_callback, first_reply).after_all(between);
            let first = s.fetch_result(first_reply)->Ok_0->Pending_key;
            let second = t.fetch_result(second_reply)->Ok_0->Pending_key;
            &&& 1 <= first < second
            &&& first == s.issued + 1
            &&& !s.subscriptions.contains_key(first)
            &&& !s.queue.callbacks.contains_key(first)
            &&& answers_waiting(s.queue.pending, first) == 0
        }),
{
    let after_first = s.after_fetch(first_callback, first_reply);
    lemma_well_formed_is_kept(s, Op::Fetch { next_callback: first_callback, reply: first_reply });
    lemma_well_formed_throughout(after_first, between);
    lemma_no_answer_waits_for_a_new_key(s, s.queue.pending.len() as int);
    assert(s.queue.pending.take(s.queue.pending.len() as int) =~= s.queue.pending);
}

/// No answer waits for a key that has not been handed out.
proof fn lemma_no_answer_waits_for_a_new_key<H, C>(s: ServiceView<H, C>, n: int)
    requires
        s.well_formed(),
        !s.exhausted(),
        0 <= n <= s.queue.pending.len(),
    ensures
        answers_waiting(s.queue.pending.take(n), s.next_key()) == 0,
    decreases n,
{
    if n > 0 {
        lemma_no_answer_waits_for_a_new_key(s, n - 1);
        assert(s.queue.pending.take(n).drop_last() =~= s.queue.pending.take(n - 1));
        assert(s.queue.pending.take(n).last() == s.queue.pending[n - 1]);
    }
}

/// Cancelling a subscription twice is cancelling it once, and cancelling a
/// key that is not live changes nothing, whether it was never handed out,
/// was cancelled before or has seen its stream end. The other subscriptions
/// and their callbacks stay, and so does every waiting request.
pub proof fn lemma_unsubscribe_is_idempotent<H, C>(s: ServiceView<H, C>, key: i32)
    ensures
        s.after_unsubscribe(key).after_unsubscribe(key) == s.after_unsubscribe(key),
        !s.subscriptions.contains_key(key) ==> s.after_unsubscribe(key) == s,
        !s.after_unsubscribe(key).subscriptions.contains_key(key),
        s.after_unsubscribe(key).queue.pending == s.queue.pending,
        s.after_unsubscribe(key).queue.open == s.queue.open,
        s.after_unsubscribe(key).issued == s.issued,
        forall|other: i32|
            other != key ==> (#[trigger] s.after_unsubscribe(key).subscriptions.contains_key(other)
                <==> s.subscriptions.contains_key(other)),
        forall|other: i32|
            other != key ==> (#[trigger] s.after_unsubscribe(key).queue.callbacks.contains_key(
                other,
            ) <==> s.queue.callbacks.contains_key(other)),
{
}

/// What becomes of an answer that waits. While its subscription is live it
/// has its callback, and it reaches that callback when its turn comes,
/// unless it cannot be written. An answer whose subscription has no callback
/// any more is dropped.
pub proof fn lemma_waiting_answer_is_delivered<H, C>(s: ServiceView<H, C>, j: int)
    requires
        s.well_formed(),
        0 <= j < s.queue.pending.len(),
        s.queue.pending[j] is Dispatch,
    ensures
        ({
            let answer = s.queue.pending[j];
            let key = answer.subscription();
            let written = json_written(answer->next);
            &&& s.subscriptions.contains_key(key) ==> s.queue.callbacks.contains_key(key)
            &&& delivered_at(s.queue.callbacks, s.queue.pending, j) == if written is Some
                && s.queue.callbacks.contains_key(key) {
                Some(Delivered { subscription: key, payload: next_text(written->0, key) })
            } else {
                None
            }
        }),
{
    let key = s.queue.pending[j].subscription();
    assert(unasked(s.queue.pending, j, key));
    lemma_callbacks_only_leave(s.queue.callbacks, s.queue.pending.take(j));
    if s.queue.callbacks.contains_key(key) {
        lemma_callback_stays(s.queue.callbacks, s.queue.pending, j, key);
    }
}

/// No answer is lost to the end of its stream, and none is invoked twice or
/// out of turn: for every subscription whose callback is registered, the
/// invocations that the waiting requests lead to are its waiting answers,
/// each once, in the order in which its worker passed them on. That holds
/// also where the worker has already asked the loop to forget the callback:
/// the loop handles that request behind the answers.
pub proof fn lemma_callback_gets_every_waiting_answer<H, C>(s: ServiceView<H, C>, key: i32)
    requires
        s.well_formed(),
        s.queue.callbacks.contains_key(key),
    ensures
        invocations_for(deliveries(s.queue.callbacks, s.queue.pending), key) == answers_of(
            s.queue.pending,
            key,
        ),
{
    assert(in_turn(s.queue.pending, key));
    lemma_callback_gets_its_answers(s.queue.callbacks, s.queue.pending, key);
}

/// A query that had completed is answered with its results: where a key is
/// left to give, the value that the engine left behind is JSON and the value
/// read from it can be written, the answer is the results payload around the
/// written value, and no pending key. Without a key left, or with a value
/// that cannot be read or written, the answer is an internal error.
pub proof fn lemma_immediate_query_returns_its_results<H, C>(
    s: ServiceView<H, C>,
    subscription: H,
    results: String,
)
    ensures
        ({
            let reply = EngineReply::Completed { subscription, results: Some(results) };
            let value = json_read(results@);
            if !s.exhausted() && value is Some && json_written(value->0) is Some {
                s.fetch_result(reply) == Ok::<Fetched, ServiceError>(
                    Fetched::Results { payload: results_text(json_written(value->0)->0) },
                )
            } else {
                s.fetch_result(reply) == Err::<Fetched, ServiceError>(ServiceError::InternalError)
            }
        }),
{
}

/// What a worker passes on is delivered, and delivered last: the callback of
/// the subscription is invoked with the value after every invocation that
/// the requests waiting before it lead to, and those are left as they were.
/// So the values of one subscription reach its callback in the order in
/// which its worker received them.
pub proof fn lemma_forwarded_value_is_delivered_last<H, C>(
    s: ServiceView<H, C>,
    key: i32,
    value: Value,
)
    requires
        s.well_formed(),
        s.forwards(key, Some(value)),
    ensures
        ({
            let t = s.after_value(key, Some(value));
            let before = deliveries(s.queue.callbacks, s.queue.pending);
            &&& t.subscriptions == s.subscriptions
            &&& t.queue.callbacks == s.queue.callbacks
            &&& deliveries(t.queue.callbacks, t.queue.pending) == match json_written(value) {
                Some(text) => before.push(
                    Delivered { subscription: key, payload: next_text(text, key) },
                ),
                None => before,
            }
        }),
{
    let t = s.after_value(key, Some(value));
    let pending = s.queue.pending;
    assert(t.queue.pending.drop_last() =~= pending);
    assert(t.queue.pending.last() == (Request::Dispatch { next: value, subscription: key }));
    assert(unasked(pending, pending.len() as int, key));
    lemma_callback_stays(s.queue.callbacks, pending, pending.len() as int, key);
    assert(pending.take(pending.len() as int) =~= pending);
}

/// Whether the subscription `key` was cancelled for good: it is not live, it
/// has no callback, and its key will not be handed out again.
pub open spec fn cancelled<H, C>(s: ServiceView<H, C>, key: i32) -> bool {
    &&& key <= s.issued
    &&& !s.subscriptions.contains_key(key)
    &&& !s.queue.callbacks.contains_key(key)
}

/// A subscription that was cancelled stays cancelled, and no event invokes
/// its callback.
pub proof fn lemma_cancelled_is_never_invoked<H, C>(s: ServiceView<H, C>, key: i32, op: Op<H, C>)
    requires
        s.well_formed(),
        cancelled(s, key),
    ensures
        cancelled(s.after(op), key),
        s.invoked(op) is Some ==> s.invoked(op)->0.subscription != key,
{
    match op {
        Op::Deliver => {
            lemma_next_then_rest(s.queue);
            lemma_callbacks_only_leave(
                s.queue.callbacks,
                s.queue.pending.take(s.queue.next_stop()),
            );
            if s.queue.next_delivered() is Some {
                lemma_next_delivered_is_last_handled(s.queue);
            }
        },
        _ => {},
    }
}

/// No delivery after unsubscribe: once the live subscription `key` has been
/// cancelled its callback is never invoked again, whatever happens
/// afterwards and however many of its answers waited when it was cancelled.
pub proof fn lemma_no_delivery_after_unsubscribe<H, C>(
    s: ServiceView<H, C>,
    key: i32,
    ops: Seq<Op<H, C>>,
)
    requires
        s.well_formed(),
        s.subscriptions.contains_key(key),
    ensures
        cancelled(s.after_unsubscribe(key).after_all(ops), key),
        invocations_for(s.after_unsubscribe(key).invoked_by(ops), key) == Seq::<Delivered>::empty(),
    decreases ops.len(),
{
    let t = s.after_unsubscribe(key);
    if ops.len() > 0 {
        lemma_no_delivery_after_unsubscribe(s, key, ops.drop_last());
        lemma_well_formed_is_kept(s, Op::Unsubscribe { key });
        lemma_well_formed_throughout(t, ops.drop_last());
        let u = t.after_all(ops.drop_last());
        lemma_cancelled_is_never_invoked(u, key, ops.last());
        if u.invoked(ops.last()) is Some {
            assert(t.invoked_by(ops).drop_last() =~= t.invoked_by(ops.drop_last()));
        }
    }
}

/// Once the delivery loop is torn down no callback is invoked any more,
/// whatever happens afterwards.
pub proof fn lemma_no_delivery_after_destroy<H, C>(s: ServiceView<H, C>, ops: Seq<Op<H, C>>)
    ensures
        s.after_destroy().invoked_by(ops) == Seq::<Delivered>::empty(),
        s.after_destroy().after_all(ops).queue == QueueView::<C>::closed(),
    decreases ops.len(),
{
    let t = s.after_destroy();
    if ops.len() > 0 {
        lemma_no_delivery_after_destroy(s, ops.drop_last());
        let u = t.after_all(ops.drop_last());
        match ops.last() {
            Op::Deliver => {
                assert(u.queue.pending.take(0) =~= Seq::<Request>::empty());
                assert(u.queue.pending.skip(0) =~= u.queue.pending);
            },
            Op::Unsubscribe { key } => {
                assert(u.queue.callbacks.remove(key) =~= u.queue.callbacks);
            },
            _ => {},
        }
    }
}

} // verus!
