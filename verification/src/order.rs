//! The order of requests and invocations, over every course of events.
//!
//! Whatever the callers, the workers and the delivery loop do, and however
//! their steps are interleaved, the requests leave the queue in the order in
//! which they were posted, each once, and the callbacks are invoked in that
//! order. So the values of one subscription reach its callback in the order
//! in which its worker received them.

use crate::delivery::{lemma_next_then_rest, written, Request};
use crate::delivery_laws::lemma_next_delivered_is_last_handled;
use crate::json::json_read;
use crate::laws::Op;
use crate::service::{ServiceView, WorkerEvent};
use vstd::prelude::*;

verus! {

impl<H, C> ServiceView<H, C> {
    /// The request that the worker of `key` posts when it stops, if the
    /// delivery loop takes it.
    pub open spec fn exit_request(self, key: i32) -> Option<Request> {
        if self.handed_out(key) && self.queue.open {
            Some(Request::Remove { subscription: key })
        } else {
            None
        }
    }

    /// The request that `op` posts to the delivery loop, if any.
    pub open spec fn posted(self, op: Op<H, C>) -> Option<Request> {
        match op {
            Op::Worker { key, event } => match event {
                WorkerEvent::Next(text) => if self.forwards(key, json_read(text@)) {
                    Some(Request::Dispatch { next: json_read(text@)->0, subscription: key })
                } else {
                    self.exit_request(key)
                },
                WorkerEvent::Closed => self.exit_request(key),
            },
            _ => None,
        }
    }

    /// The number of requests that leave the queue by `op`: those that the
    /// delivery loop handles, or drops when it is torn down.
    pub open spec fn taken(self, op: Op<H, C>) -> int {
        match op {
            Op::Deliver => self.queue.next_stop(),
            Op::Destroy => self.queue.pending.len() as int,
            _ => 0,
        }
    }

    /// Every request of a course of events: those that wait at its start,
    /// then those that `ops` post, in the order in which they are posted.
    pub open spec fn requests(self, ops: Seq<Op<H, C>>) -> Seq<Request>
        decreases ops.len(),
    {
        if ops.len() == 0 {
            self.queue.pending
        } else {
            let earlier = self.requests(ops.drop_last());
            match self.after_all(ops.drop_last()).posted(ops.last()) {
                Some(request) => earlier.push(request),
                None => earlier,
            }
        }
    }

    /// The number of requests that have left the queue after `ops`.
    pub open spec fn taken_by(self, ops: Seq<Op<H, C>>) -> int
        decreases ops.len(),
    {
        if ops.len() == 0 {
            0
        } else {
            self.taken_by(ops.drop_last()) + self.after_all(ops.drop_last()).taken(ops.last())
        }
    }

    /// For each invocation that `ops` lead to, the place among
    /// `requests(ops)` of the answer that it delivers.
    pub open spec fn sources(self, ops: Seq<Op<H, C>>) -> Seq<int>
        decreases ops.len(),
    {
        if ops.len() == 0 {
            Seq::empty()
        } else {
            let earlier = self.sources(ops.drop_last());
            if self.after_all(ops.drop_last()).invoked(ops.last()) is Some {
                earlier.push(self.taken_by(ops) - 1)
            } else {
                earlier
            }
        }
    }

    /// The place among `requests(ops)` of the request that the event at `a`
    /// posts, where it posts one.
    pub open spec fn place_of(self, ops: Seq<Op<H, C>>, a: int) -> int {
        self.requests(ops.take(a)).len() as int
    }
}

/// The queue is first in, first out, over every course of events: the
/// requests that wait after `ops` are the requests of the course without
/// those that have left, in the order in which they were posted.
pub proof fn lemma_requests_leave_in_order<H, C>(s: ServiceView<H, C>, ops: Seq<Op<H, C>>)
    ensures
        0 <= s.taken_by(ops) <= s.requests(ops).len(),
        s.after_all(ops).queue.pending == s.requests(ops).skip(s.taken_by(ops)),
    decreases ops.len(),
{
    if ops.len() == 0 {
        assert(s.queue.pending.skip(0) =~= s.queue.pending);
    } else {
        let before = ops.drop_last();
        let u = s.after_all(before);
        let all = s.requests(before);
        let t = s.taken_by(before);
        lemma_requests_leave_in_order(s, before);
        lemma_next_then_rest(u.queue);
        match u.posted(ops.last()) {
            Some(request) => {
                assert(all.skip(t).push(request) =~= all.push(request).skip(t));
            },
            None => {},
        }
        match ops.last() {
            Op::Deliver => {
                assert(all.skip(t).skip(u.queue.next_stop()) =~= all.skip(
                    t + u.queue.next_stop(),
                ));
            },
            Op::Destroy => {
                assert(all.skip(all.len() as int) =~= Seq::<Request>::empty());
            },
            _ => {},
        }
    }
}

/// A request keeps its place: what the first `a` events have posted stands
/// unchanged at the front of what all events post.
pub proof fn lemma_requests_keep_their_place<H, C>(
    s: ServiceView<H, C>,
    ops: Seq<Op<H, C>>,
    a: int,
)
    requires
        0 <= a <= ops.len(),
    ensures
        s.requests(ops.take(a)).len() <= s.requests(ops).len(),
        s.requests(ops).take(s.requests(ops.take(a)).len() as int) == s.requests(ops.take(a)),
    decreases ops.len(),
{
    let front = s.requests(ops.take(a));
    if a == ops.len() {
        assert(ops.take(a) =~= ops);
        assert(s.requests(ops).take(front.len() as int) =~= front);
    } else {
        let before = ops.drop_last();
        assert(before.take(a) =~= ops.take(a));
        lemma_requests_keep_their_place(s, before, a);
        assert(s.requests(ops).take(front.len() as int) =~= s.requests(before).take(
            front.len() as int,
        ));
    }
}

/// The event at `a`, where it posts a request, puts it at its place, behind
/// everything that was posted before.
pub proof fn lemma_posted_at_its_place<H, C>(s: ServiceView<H, C>, ops: Seq<Op<H, C>>, a: int)
    requires
        0 <= a < ops.len(),
        s.after_all(ops.take(a)).posted(ops[a]) is Some,
    ensures
        0 <= s.place_of(ops, a) < s.requests(ops).len(),
        s.requests(ops)[s.place_of(ops, a)] == s.after_all(ops.take(a)).posted(ops[a])->0,
        s.place_of(ops, a + 1) == s.place_of(ops, a) + 1,
{
    let upto = ops.take(a + 1);
    assert(upto.drop_last() =~= ops.take(a));
    assert(upto.last() == ops[a]);
    lemma_requests_keep_their_place(s, ops, a + 1);
    let front = s.requests(upto);
    assert(s.requests(ops).take(front.len() as int)[s.place_of(ops, a)] == front[s.place_of(
        ops,
        a,
    )]);
}

/// Whether the invocation at `m` delivers the answer that stands at its
/// source, written as it is, to the callback of the answer's subscription.
pub open spec fn delivers_its_source<H, C>(
    s: ServiceView<H, C>,
    ops: Seq<Op<H, C>>,
    m: int,
) -> bool {
    written(s.requests(ops)[s.sources(ops)[m]]) == Some(s.invoked_by(ops)[m])
}

/// The callbacks are invoked in the order of the requests, over every course
/// of events. Each invocation delivers one answer of the course, as it was
/// written, to the callback of its subscription; that answer has left the
/// queue; and a later invocation delivers an answer that was posted later.
/// So no answer is delivered twice, and none out of turn.
pub proof fn lemma_invocations_follow_the_requests<H, C>(s: ServiceView<H, C>, ops: Seq<Op<H, C>>)
    ensures
        s.sources(ops).len() == s.invoked_by(ops).len(),
        forall|m: int|
            0 <= m < s.sources(ops).len() ==> 0 <= (#[trigger] s.sources(ops)[m]) < s.taken_by(
                ops,
            ),
        forall|m: int, n: int|
            0 <= m < n < s.sources(ops).len() ==> (#[trigger] s.sources(ops)[m]) < (
            #[trigger] s.sources(ops)[n]),
        forall|m: int| 0 <= m < s.sources(ops).len() ==> #[trigger] delivers_its_source(s, ops, m),
    decreases ops.len(),
{
    if ops.len() > 0 {
        let before = ops.drop_last();
        let u = s.after_all(before);
        let t = s.taken_by(before);
        lemma_invocations_follow_the_requests(s, before);
        lemma_requests_leave_in_order(s, before);
        lemma_requests_leave_in_order(s, ops);
        lemma_next_then_rest(u.queue);
        let earlier = s.sources(before);
        assert forall|i: int| 0 <= i < s.requests(before).len() implies s.requests(ops)[i]
            == s.requests(before)[i] by {}
        if u.invoked(ops.last()) is Some {
            let n = u.queue.next_stop();
            lemma_next_delivered_is_last_handled(u.queue);
            assert(u.queue.pending[n - 1] == s.requests(before)[t + n - 1]);
        }
        assert forall|m: int| 0 <= m < s.sources(ops).len() implies #[trigger] delivers_its_source(
            s,
            ops,
            m,
        ) by {
            if m < earlier.len() {
                assert(delivers_its_source(s, before, m));
            }
        }
    }
}

/// Ordering, under every interleaving: of two requests that events of the
/// course post, the one posted first stands first among the requests, and
/// where both lead to an invocation, it is invoked first. With the two events
/// being two values that the worker of one subscription received, its
/// callback gets the values in the order in which the worker received them,
/// whatever the other workers, the caller and the delivery loop did in
/// between.
pub proof fn lemma_values_reach_the_callback_in_order<H, C>(
    s: ServiceView<H, C>,
    ops: Seq<Op<H, C>>,
    a: int,
    b: int,
    m: int,
    n: int,
)
    requires
        0 <= a < b < ops.len(),
        s.after_all(ops.take(a)).posted(ops[a]) is Some,
        s.after_all(ops.take(b)).posted(ops[b]) is Some,
        0 <= m < s.sources(ops).len(),
        0 <= n < s.sources(ops).len(),
        s.sources(ops)[m] == s.place_of(ops, a),
        s.sources(ops)[n] == s.place_of(ops, b),
    ensures
        s.place_of(ops, a) < s.place_of(ops, b) < s.requests(ops).len(),
        s.requests(ops)[s.place_of(ops, a)] == s.after_all(ops.take(a)).posted(ops[a])->0,
        s.requests(ops)[s.place_of(ops, b)] == s.after_all(ops.take(b)).posted(ops[b])->0,
        m < n,
{
    lemma_posted_at_its_place(s, ops, a);
    lemma_posted_at_its_place(s, ops, b);
    let upto = ops.take(b);
    assert(upto.take(a + 1) =~= ops.take(a + 1));
    lemma_requests_keep_their_place(s, upto, a + 1);
    lemma_invocations_follow_the_requests(s, ops);
    if m > n {
        assert(s.sources(ops)[n] < s.sources(ops)[m]);
    }
}

} // verus!
