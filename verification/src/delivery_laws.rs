//! What holds of every delivery loop: the order of its invocations, the
//! callbacks that stay, and the answers that an invocation uses up.

use crate::delivery::{
    callbacks_after, delivered, deliveries, lemma_advance_one, lemma_handle_in_turn, written,
    Delivered, QueueView, Request,
};
use vstd::prelude::*;

verus! {

/// The invocation that the request at `i` leads to, if any, when `requests`
/// are handled first to last.
pub open spec fn delivered_at<C>(
    callbacks: Map<i32, C>,
    requests: Seq<Request>,
    i: int,
) -> Option<Delivered> {
    delivered(callbacks_after(callbacks, requests.take(i)), requests[i])
}

/// The number of invocations that the requests before `i` lead to: the place
/// among all invocations at which the one for the request at `i` stands.
pub open spec fn place<C>(callbacks: Map<i32, C>, requests: Seq<Request>, i: int) -> int {
    deliveries(callbacks, requests.take(i)).len() as int
}

/// The invocation for the request at `i` stands at its place.
pub proof fn lemma_delivered_in_place<C>(callbacks: Map<i32, C>, requests: Seq<Request>, i: int)
    requires
        0 <= i < requests.len(),
        delivered_at(callbacks, requests, i) is Some,
    ensures
        0 <= place(callbacks, requests, i) < deliveries(callbacks, requests).len(),
        place(callbacks, requests, i + 1) == place(callbacks, requests, i) + 1,
        deliveries(callbacks, requests)[place(callbacks, requests, i)] == delivered_at(
            callbacks,
            requests,
            i,
        )->0,
{
    let upto = requests.take(i + 1);
    assert(upto.drop_last() =~= requests.take(i));
    assert(upto.last() == requests[i]);
    assert(upto + requests.skip(i + 1) =~= requests);
    lemma_handle_in_turn(callbacks, upto, requests.skip(i + 1));
}

/// Delivery keeps the order of the queue: of two requests that each lead to
/// an invocation, the one that was posted first is invoked first. So the
/// answers of one subscription reach its callback in the order in which its
/// worker passed them on.
pub proof fn lemma_deliveries_are_in_order<C>(
    callbacks: Map<i32, C>,
    requests: Seq<Request>,
    i: int,
    j: int,
)
    requires
        0 <= i < j < requests.len(),
        delivered_at(callbacks, requests, i) is Some,
        delivered_at(callbacks, requests, j) is Some,
    ensures
        ({
            let made = deliveries(callbacks, requests);
            let first = place(callbacks, requests, i);
            let second = place(callbacks, requests, j);
            &&& 0 <= first < second < made.len()
            &&& made[first] == delivered_at(callbacks, requests, i)->0
            &&& made[second] == delivered_at(callbacks, requests, j)->0
        }),
{
    lemma_delivered_in_place(callbacks, requests, i);
    lemma_delivered_in_place(callbacks, requests, j);
    let upto = requests.take(i + 1);
    let between = requests.skip(i + 1).take(j - i - 1);
    assert(upto + between =~= requests.take(j));
    lemma_handle_in_turn(callbacks, upto, between);
}

/// Handling requests registers no callback: what is registered afterwards was
/// registered before, with the same callback.
pub proof fn lemma_callbacks_only_leave<C>(callbacks: Map<i32, C>, requests: Seq<Request>)
    ensures
        forall|key: i32| #[trigger]
            callbacks_after(callbacks, requests).contains_key(key) ==> {
                &&& callbacks.contains_key(key)
                &&& callbacks_after(callbacks, requests)[key] == callbacks[key]
            },
    decreases requests.len(),
{
    if requests.len() > 0 {
        lemma_callbacks_only_leave(callbacks, requests.drop_last());
        let before = callbacks_after(callbacks, requests.drop_last());
        assert forall|key: i32| #[trigger]
            callbacks_after(callbacks, requests).contains_key(key) implies {
            &&& callbacks.contains_key(key)
            &&& callbacks_after(callbacks, requests)[key] == callbacks[key]
        } by {
            assert(before.contains_key(key));
        }
    }
}

/// Whether none of the first `n` of `requests` asks to forget the callback
/// of `key`.
pub open spec fn unasked(requests: Seq<Request>, n: int, key: i32) -> bool {
    forall|i: int|
        0 <= i < n && (#[trigger] requests[i]) is Remove ==> requests[i].subscription() != key
}

/// A callback stays registered, and stays the same, while the loop handles
/// requests of which none asks to forget it.
pub proof fn lemma_callback_stays<C>(
    callbacks: Map<i32, C>,
    requests: Seq<Request>,
    n: int,
    key: i32,
)
    requires
        0 <= n <= requests.len(),
        callbacks.contains_key(key),
        unasked(requests, n, key),
    ensures
        callbacks_after(callbacks, requests.take(n)).contains_key(key),
        callbacks_after(callbacks, requests.take(n))[key] == callbacks[key],
    decreases n,
{
    if n > 0 {
        lemma_callback_stays(callbacks, requests, n - 1, key);
        assert(requests.take(n).drop_last() =~= requests.take(n - 1));
        assert(requests.take(n).last() == requests[n - 1]);
    }
}

/// The invocation that the loop makes next is the one for the last request
/// that it handles on the way: an answer whose subscription has a callback,
/// written as it is.
pub proof fn lemma_next_delivered_is_last_handled<C>(q: QueueView<C>)
    requires
        q.next_delivered() is Some,
    ensures
        1 <= q.next_stop() <= q.pending.len(),
        q.next_delivered() == delivered_at(q.callbacks, q.pending, q.next_stop() - 1),
        q.next_delivered() == written(q.pending[q.next_stop() - 1]),
        q.pending[q.next_stop() - 1] is Dispatch,
        q.pending[q.next_stop() - 1].subscription() == q.next_delivered()->0.subscription,
        q.callbacks.contains_key(q.next_delivered()->0.subscription),
    decreases q.pending.len(),
{
    if delivered(q.callbacks, q.pending[0]) is Some {
        assert(q.pending.take(0) =~= Seq::<Request>::empty());
    } else {
        let t = q.advance(1);
        lemma_advance_one(q);
        lemma_next_delivered_is_last_handled(t);
        let n = t.next_stop();
        assert(t.pending[n - 1] == q.pending[n]);
        assert(q.pending.take(1) + t.pending.take(n - 1) =~= q.pending.take(n));
        lemma_handle_in_turn(q.callbacks, q.pending.take(1), t.pending.take(n - 1));
        lemma_callbacks_only_leave(q.callbacks, q.pending.take(1));
    }
}

/// The number of answers for `key` among the waiting requests.
pub open spec fn answers_waiting(pending: Seq<Request>, key: i32) -> nat
    decreases pending.len(),
{
    if pending.len() == 0 {
        0
    } else {
        let earlier = answers_waiting(pending.drop_last(), key);
        if pending.last() is Dispatch && pending.last().subscription() == key {
            earlier + 1
        } else {
            earlier
        }
    }
}

/// The invocations of the callback of `key` among `made`, in their order.
pub open spec fn invocations_for(made: Seq<Delivered>, key: i32) -> Seq<Delivered>
    decreases made.len(),
{
    if made.len() == 0 {
        Seq::empty()
    } else {
        let earlier = invocations_for(made.drop_last(), key);
        if made.last().subscription == key {
            earlier.push(made.last())
        } else {
            earlier
        }
    }
}

/// The invocations that the answers for `key` among `requests` ask for, in
/// the order of the requests: one for each answer that can be written.
pub open spec fn answers_of(requests: Seq<Request>, key: i32) -> Seq<Delivered>
    decreases requests.len(),
{
    if requests.len() == 0 {
        Seq::empty()
    } else {
        let earlier = answers_of(requests.drop_last(), key);
        if requests.last().subscription() == key && written(requests.last()) is Some {
            earlier.push(written(requests.last())->0)
        } else {
            earlier
        }
    }
}

/// Whether no answer for `key` stands behind a request to forget the
/// callback of `key`.
pub open spec fn in_turn(requests: Seq<Request>, key: i32) -> bool {
    forall|i: int, j: int|
        0 <= i < j < requests.len() && (#[trigger] requests[i]) is Remove && (
        #[trigger] requests[j]) is Dispatch && requests[j].subscription() == key
            ==> requests[i].subscription() != key
}

/// A callback gets its answers, all of them and nothing else: where the
/// callback of `key` is registered and no answer for `key` stands behind a
/// request to forget it, the invocations of that callback are the answers
/// for `key` among the requests, each once, in the order of the requests.
/// Nothing is lost to a request to forget the callback that stands behind
/// them, nothing is invoked twice, nothing out of turn.
pub proof fn lemma_callback_gets_its_answers<C>(
    callbacks: Map<i32, C>,
    requests: Seq<Request>,
    key: i32,
)
    requires
        callbacks.contains_key(key),
        in_turn(requests, key),
    ensures
        invocations_for(deliveries(callbacks, requests), key) == answers_of(requests, key),
    decreases requests.len(),
{
    if requests.len() > 0 {
        let before = requests.drop_last();
        let last = requests.last();
        assert(in_turn(before, key)) by {
            assert forall|i: int, j: int|
                0 <= i < j < before.len() && (#[trigger] before[i]) is Remove && (
                #[trigger] before[j]) is Dispatch && before[j].subscription()
                    == key implies before[i].subscription() != key by {
                assert(before[i] == requests[i]);
                assert(before[j] == requests[j]);
            }
        }
        lemma_callback_gets_its_answers(callbacks, before, key);
        let registered = callbacks_after(callbacks, before);
        if last is Dispatch && last.subscription() == key {
            assert(unasked(requests, before.len() as int, key)) by {
                assert(last == requests[requests.len() - 1]);
            }
            lemma_callback_stays(callbacks, requests, before.len() as int, key);
            assert(requests.take(before.len() as int) =~= before);
        }
        match delivered(registered, last) {
            Some(d) => {
                assert(deliveries(callbacks, requests).drop_last() =~= deliveries(
                    callbacks,
                    before,
                ));
            },
            None => {},
        }
    }
}

/// Without a callback nothing is delivered: where the callback of `key` is
/// not registered, no request leads to an invocation for `key`.
pub proof fn lemma_without_callback_nothing_is_delivered<C>(
    callbacks: Map<i32, C>,
    requests: Seq<Request>,
    key: i32,
)
    requires
        !callbacks.contains_key(key),
    ensures
        invocations_for(deliveries(callbacks, requests), key) == Seq::<Delivered>::empty(),
    decreases requests.len(),
{
    if requests.len() > 0 {
        let before = requests.drop_last();
        lemma_without_callback_nothing_is_delivered(callbacks, before, key);
        lemma_callbacks_only_leave(callbacks, before);
        match delivered(callbacks_after(callbacks, before), requests.last()) {
            Some(d) => {
                assert(deliveries(callbacks, requests).drop_last() =~= deliveries(
                    callbacks,
                    before,
                ));
            },
            None => {},
        }
    }
}

/// A request to forget a callback takes effect when its turn has come: once
/// the loop has handled it, the callback is registered no more.
pub proof fn lemma_removal_takes_effect<C>(callbacks: Map<i32, C>, requests: Seq<Request>, i: int)
    requires
        0 <= i < requests.len(),
        requests[i] is Remove,
    ensures
        !callbacks_after(callbacks, requests).contains_key(requests[i].subscription()),
    decreases requests.len(),
{
    let before = requests.drop_last();
    if i < requests.len() - 1 {
        assert(before[i] == requests[i]);
        lemma_removal_takes_effect(callbacks, before, i);
    }
}

/// Requests stand in the queue in the order of the calls that posted them,
/// each once, behind those that waited before, whoever made the calls.
pub proof fn lemma_posts_keep_the_order_of_the_calls<C>(q: QueueView<C>, posted: Seq<Request>)
    requires
        q.open,
    ensures
        q.post_all(posted).pending == q.pending + posted,
        q.post_all(posted).callbacks == q.callbacks,
        q.post_all(posted).open,
    decreases posted.len(),
{
    if posted.len() == 0 {
        assert(q.pending + posted =~= q.pending);
    } else {
        lemma_posts_keep_the_order_of_the_calls(q, posted.drop_last());
        assert((q.pending + posted.drop_last()).push(posted.last()) =~= q.pending + posted);
    }
}

} // verus!
