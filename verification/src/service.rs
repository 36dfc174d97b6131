//! The service: what a caller asks of it, and what the worker of a pending
//! query and the delivery loop do to its state.
//!
//! The service itself talks to no query engine and starts no thread. Its
//! owner does both and tells the service what came of it: the engine's reply
//! to a query, what a worker received, that the delivery loop was woken. The
//! service decides what follows.

use crate::delivery::{deliveries, DeferCallbackQueue, Delivery, QueueView, Request};
use crate::error::ServiceError;
use crate::json::{json_read, read_json};
use crate::laws::{lemma_handling_keeps_well_formed, lemma_well_formed_is_kept, Op};
use crate::payload::{frame_pending, pending_text, serialize_results, Payload};
use crate::registry::SubscriptionRegistry;
use crate::text::{decode_utf16, utf16_text};
use serde_json::Value;
use vstd::prelude::*;

verus! {

/// A request that passed the checks on its arguments.
#[derive(Debug)]
pub struct FetchRequest<C> {
    /// The text of the query.
    pub query: String,
    /// The name of the operation to run.
    pub operation_name: String,
    /// The variables of the operation, as the engine takes them.
    pub variables: String,
    /// Where the answers of a pending query go.
    pub next_callback: C,
}

impl<C> FetchRequest<C> {
    /// Checks the arguments of a request: each text has to be valid UTF-16,
    /// and a callback has to be there.
    pub fn new(
        query: &[u16],
        operation_name: &[u16],
        variables: &[u16],
        next_callback: Option<C>,
    ) -> (r: Result<FetchRequest<C>, ServiceError>)
        ensures
            match r {
                Ok(request) => {
                    &&& utf16_text(query@) == Some(request.query@)
                    &&& utf16_text(operation_name@) == Some(request.operation_name@)
                    &&& utf16_text(variables@) == Some(request.variables@)
                    &&& next_callback == Some(request.next_callback)
                },
                Err(e) => {
                    &&& e == ServiceError::InvalidArgument
                    &&& (utf16_text(query@) is None || utf16_text(operation_name@) is None
                        || utf16_text(variables@) is None || next_callback is None)
                },
            },
    {
        let query = match decode_utf16(query) {
            Some(text) => text,
            None => {
                return Err(ServiceError::InvalidArgument);
            },
        };
        let operation_name = match decode_utf16(operation_name) {
            Some(text) => text,
            None => {
                return Err(ServiceError::InvalidArgument);
            },
        };
        let variables = match decode_utf16(variables) {
            Some(text) => text,
            None => {
                return Err(ServiceError::InvalidArgument);
            },
        };
        match next_callback {
            Some(next_callback) => Ok(
                FetchRequest { query, operation_name, variables, next_callback },
            ),
            None => Err(ServiceError::InvalidArgument),
        }
    }
}

/// What the query engine made of a request.
#[derive(Debug)]
pub enum EngineReply<H> {
    /// The engine does not accept the text of the query.
    ParseError,
    /// The subscription was created but could not be armed.
    ListenError,
    /// The subscription was armed and had completed already. `results` is the
    /// one value that it left behind, or `None` where that value could not be
    /// received.
    Completed { subscription: H, results: Option<String> },
    /// The subscription was armed and has not completed: its values are
    /// still to come.
    Streaming { subscription: H },
}

/// The answer to a request.
#[derive(Debug, PartialEq, Eq)]
pub enum Response {
    /// The query resolved at once; `payload` holds its results.
    Results { payload: String },
    /// The query is pending under `key`; `payload` tells the caller so. The
    /// owner of the service starts the worker of `key`.
    Pending { key: i32, payload: String },
}

/// A `Response` as contracts see it.
pub enum Fetched {
    Results { payload: Seq<char> },
    Pending { key: i32, payload: Seq<char> },
}

impl View for Response {
    type V = Fetched;

    open spec fn view(&self) -> Fetched {
        match *self {
            Response::Results { payload } => Fetched::Results { payload: payload@ },
            Response::Pending { key, payload } => Fetched::Pending { key, payload: payload@ },
        }
    }
}

/// What the worker of a pending query received.
#[derive(Debug)]
pub enum WorkerEvent {
    /// The text of the next value.
    Next(String),
    /// No value will come any more.
    Closed,
}

/// What the worker of a pending query does next.
#[derive(Clone, Copy, Debug, PartialEq, Eq, Structural)]
pub enum WorkerStep {
    /// The value is on its way to the caller: wake the delivery loop, then
    /// receive again.
    Continue,
    /// The subscription is over: stop.
    Exit,
}

/// The answer for the one value of a query that had completed; `None`
/// stands for a value that could not be received or read. A value that
/// cannot be written is an error too: the caller never sees a partial text.
pub open spec fn immediate(value: Option<Value>) -> Result<Fetched, ServiceError> {
    match value {
        Some(results) => match (Payload::Results { results }).text() {
            Some(payload) => Ok(Fetched::Results { payload }),
            None => Err(ServiceError::InternalError),
        },
        None => Err(ServiceError::InternalError),
    }
}

/// The value that is read from `results`; `None` where there is no text or
/// the text is no JSON.
pub open spec fn read(results: Option<String>) -> Option<Value> {
    match results {
        Some(text) => json_read(text@),
        None => None,
    }
}

/// The state of a service as contracts see it.
pub struct ServiceView<H, C> {
    /// The number of keys handed out so far. The keys are `1` to `issued`.
    pub issued: int,
    /// The live subscriptions.
    pub subscriptions: Map<i32, H>,
    /// The delivery loop.
    pub queue: QueueView<C>,
}

impl<H, C> ServiceView<H, C> {
    /// The state of a new service: no key handed out, no subscription, and a
    /// delivery loop that takes requests.
    pub open spec fn fresh() -> ServiceView<H, C> {
        ServiceView { issued: 0, subscriptions: Map::empty(), queue: QueueView::opened() }
    }

    /// Whether every key has been handed out.
    pub open spec fn exhausted(self) -> bool {
        self.issued >= i32::MAX
    }

    /// The key that is handed out next.
    pub open spec fn next_key(self) -> i32 {
        (self.issued + 1) as i32
    }

    /// Whether `key` has been handed out.
    pub open spec fn handed_out(self, key: i32) -> bool {
        1 <= key <= self.issued
    }

    /// Whatever is kept under a key, or waits for one, belongs to a key that
    /// has been handed out.
    pub open spec fn keys_handed_out(self) -> bool {
        &&& forall|key: i32| #[trigger]
            self.subscriptions.contains_key(key) ==> self.handed_out(key)
        &&& forall|key: i32| #[trigger]
            self.queue.callbacks.contains_key(key) ==> self.handed_out(key)
        &&& forall|i: int|
            0 <= i < self.queue.pending.len() ==> self.handed_out(
                (#[trigger] self.queue.pending[i]).subscription(),
            )
    }

    /// No answer of a live subscription is lost on its way. While the
    /// delivery loop takes requests, every live subscription has its
    /// callback. The loop is asked to forget a callback only when the
    /// subscription is live no more, and no answer waits behind such a
    /// request for the same key. A loop that was torn down holds no request.
    /// An answer may wait for a key that is live no more: where the
    /// subscription was cancelled, it finds no callback.
    pub open spec fn callbacks_in_place(self) -> bool {
        let pending = self.queue.pending;
        &&& self.queue.open ==> forall|key: i32| #[trigger]
            self.subscriptions.contains_key(key) ==> self.queue.callbacks.contains_key(key)
        &&& !self.queue.open ==> pending.len() == 0
        &&& forall|i: int|
            0 <= i < pending.len() && (#[trigger] pending[i]) is Remove
                ==> !self.subscriptions.contains_key(pending[i].subscription())
        &&& forall|i: int, j: int|
            0 <= i < j < pending.len() && (#[trigger] pending[i]) is Remove && (
            #[trigger] pending[j]) is Dispatch ==> pending[i].subscription()
                != pending[j].subscription()
    }

    /// What holds of every service.
    pub open spec fn well_formed(self) -> bool {
        &&& 0 <= self.issued <= i32::MAX
        &&& self.keys_handed_out()
        &&& self.callbacks_in_place()
    }

    /// The answer to a request to which the engine replied with `reply`.
    pub open spec fn fetch_result(self, reply: EngineReply<H>) -> Result<Fetched, ServiceError> {
        match reply {
            EngineReply::ParseError => Err(ServiceError::InvalidArgument),
            EngineReply::ListenError => Err(ServiceError::InternalError),
            EngineReply::Completed { subscription, results } => if self.exhausted() {
                Err(ServiceError::InternalError)
            } else {
                immediate(read(results))
            },
            EngineReply::Streaming { subscription } => if self.exhausted() {
                Err(ServiceError::InternalError)
            } else {
                Ok(
                    Fetched::Pending {
                        key: self.next_key(),
                        payload: pending_text(self.next_key()),
                    },
                )
            },
        }
    }

    /// The state after a request to which the engine replied with `reply`.
    /// A subscription that was armed takes the next key. One that had
    /// completed leaves the registry again at once; one that has not stays,
    /// with the callback registered under its key.
    pub open spec fn after_fetch(self, next_callback: C, reply: EngineReply<H>) -> ServiceView<
        H,
        C,
    > {
        match reply {
            EngineReply::ParseError => self,
            EngineReply::ListenError => self,
            EngineReply::Completed { subscription, results } => if self.exhausted() {
                self
            } else {
                ServiceView {
                    issued: self.issued + 1,
                    subscriptions: self.subscriptions.remove(self.next_key()),
                    queue: self.queue,
                }
            },
            EngineReply::Streaming { subscription } => if self.exhausted() {
                self
            } else {
                ServiceView {
                    issued: self.issued + 1,
                    subscriptions: self.subscriptions.insert(self.next_key(), subscription),
                    queue: self.queue.register(next_callback, self.next_key()),
                }
            },
        }
    }

    /// The state after the caller cancelled the subscription `key`. A live
    /// subscription leaves the registry and its callback is forgotten at
    /// once, so that no answer that waits for it, or comes later, finds one.
    /// For a key that is not live nothing changes: a stream that has ended
    /// keeps its callback until the answers that wait have been delivered.
    pub open spec fn after_unsubscribe(self, key: i32) -> ServiceView<H, C> {
        if self.subscriptions.contains_key(key) {
            ServiceView {
                issued: self.issued,
                subscriptions: self.subscriptions.remove(key),
                queue: self.queue.forget(key),
            }
        } else {
            self
        }
    }

    /// The state after the worker of `key` has stopped: the delivery loop is
    /// asked to forget the callback, and the subscription is dropped. A key
    /// that was never handed out has no worker: for it nothing changes.
    pub open spec fn after_exit(self, key: i32) -> ServiceView<H, C> {
        if self.handed_out(key) {
            ServiceView {
                issued: self.issued,
                subscriptions: self.subscriptions.remove(key),
                queue: self.queue.post(Request::Remove { subscription: key }),
            }
        } else {
            self
        }
    }

    /// Whether the worker of `key` passes `value` on: the value was read, the
    /// subscription is live, and the delivery loop takes requests.
    pub open spec fn forwards(self, key: i32, value: Option<Value>) -> bool {
        &&& value is Some
        &&& self.handed_out(key)
        &&& self.subscriptions.contains_key(key)
        &&& self.queue.open
    }

    /// The state after the worker of `key` has received `value`; `None`
    /// stands for a text that could not be read.
    pub open spec fn after_value(self, key: i32, value: Option<Value>) -> ServiceView<H, C> {
        if self.forwards(key, value) {
            ServiceView {
                queue: self.queue.post(Request::Dispatch { next: value->0, subscription: key }),
                ..self
            }
        } else {
            self.after_exit(key)
        }
    }

    /// The state after the worker of `key` has received `event`.
    pub open spec fn after_event(self, key: i32, event: WorkerEvent) -> ServiceView<H, C> {
        match event {
            WorkerEvent::Next(text) => self.after_value(key, json_read(text@)),
            WorkerEvent::Closed => self.after_exit(key),
        }
    }

    /// What the worker of `key` does after it has received `event`.
    pub open spec fn step_on(self, key: i32, event: WorkerEvent) -> WorkerStep {
        match event {
            WorkerEvent::Next(text) => if self.forwards(key, json_read(text@)) {
                WorkerStep::Continue
            } else {
                WorkerStep::Exit
            },
            WorkerEvent::Closed => WorkerStep::Exit,
        }
    }

    /// The state after the delivery loop has handled requests up to its next
    /// invocation.
    pub open spec fn after_delivery(self) -> ServiceView<H, C> {
        ServiceView { queue: self.queue.advance(self.queue.next_stop()), ..self }
    }

    /// The state after the delivery loop was torn down.
    pub open spec fn after_destroy(self) -> ServiceView<H, C> {
        ServiceView { queue: QueueView::closed(), ..self }
    }
}

/// What a caller can ask of the service.
pub trait IGraphQLService<H, C>: View<V = ServiceView<H, C>> + Sized {
    /// Answers a request of which the engine made `reply`.
    ///
    /// A query that the engine does not accept is refused, and so is one
    /// whose subscription cannot be armed; neither takes a key. A query that
    /// had completed is answered with its results, and its subscription does
    /// not stay. Any other query is pending: it is answered with its key, its
    /// subscription stays live and its callback is registered.
    fn fetchQuery(&mut self, request: FetchRequest<C>, reply: EngineReply<H>) -> (r: Result<
        Response,
        ServiceError,
    >)
        ensures
            final(self)@ == old(self)@.after_fetch(request.next_callback, reply),
            match r {
                Ok(response) => old(self)@.fetch_result(reply) == Ok::<Fetched, ServiceError>(
                    response@,
                ),
                Err(e) => old(self)@.fetch_result(reply) == Err::<Fetched, ServiceError>(e),
            },
            old(self)@.well_formed() ==> final(self)@.well_formed(),
    ;

    /// Cancels the subscription `key` and says whether it was live. A live
    /// subscription leaves the registry and its callback is forgotten: from
    /// now on the callback is not invoked, not even for answers that wait.
    /// For a key that is not live nothing changes; that is no error.
    fn unsubscribe(&mut self, key: i32) -> (found: bool)
        ensures
            final(self)@ == old(self)@.after_unsubscribe(key),
            found == old(self)@.subscriptions.contains_key(key),
            old(self)@.well_formed() ==> final(self)@.well_formed(),
    ;
}

/// A query service: the keys it has handed out, its live subscriptions and
/// its delivery loop. `H` is the engine's handle of a subscription, `C` the
/// caller's callback.
pub struct GraphQLService<H, C> {
    issued: i32,
    subscriptions: SubscriptionRegistry<H>,
    dispatch_queue: DeferCallbackQueue<C>,
}

impl<H, C> View for GraphQLService<H, C> {
    type V = ServiceView<H, C>;

    closed spec fn view(&self) -> ServiceView<H, C> {
        ServiceView {
            issued: self.issued as int,
            subscriptions: self.subscriptions@,
            queue: self.dispatch_queue@,
        }
    }
}

/// The answer for the one value of a query that had completed; `None` stands
/// for a value that could not be received or read.
pub fn immediate_response(value: Option<Value>) -> (r: Result<Response, ServiceError>)
    ensures
        match r {
            Ok(response) => immediate(value) == Ok::<Fetched, ServiceError>(response@),
            Err(e) => immediate(value) == Err::<Fetched, ServiceError>(e),
        },
{
    match value {
        Some(results) => match serialize_results(&Payload::Results { results }) {
            Some(payload) => Ok(Response::Results { payload }),
            None => Err(ServiceError::InternalError),
        },
        None => Err(ServiceError::InternalError),
    }
}

/// Reads the text of a value; `None` where there is no text or it is no
/// JSON.
pub fn read_results(results: Option<String>) -> (value: Option<Value>)
    ensures
        value == read(results),
{
    match results {
        Some(text) => read_json(text.as_str()),
        None => None,
    }
}

impl<H, C> GraphQLService<H, C> {
    /// A service that has handed out no key, with no subscription and a
    /// delivery loop that takes requests.
    pub fn new() -> (service: Self)
        ensures
            service@ == ServiceView::<H, C>::fresh(),
            service@.well_formed(),
    {
        GraphQLService {
            issued: 0,
            subscriptions: SubscriptionRegistry::new(),
            dispatch_queue: DeferCallbackQueue::new(),
        }
    }

    /// The number of keys handed out so far.
    pub fn issued(&self) -> (n: i32)
        ensures
            n == self@.issued,
    {
        self.issued
    }

    /// The live subscriptions.
    pub fn subscriptions(&self) -> (registry: &SubscriptionRegistry<H>)
        ensures
            registry@ == self@.subscriptions,
    {
        &self.subscriptions
    }

    /// The delivery loop.
    pub fn dispatch_queue(&self) -> (queue: &DeferCallbackQueue<C>)
        ensures
            queue@ == self@.queue,
    {
        &self.dispatch_queue
    }

    /// Stops the worker of `key`: asks the delivery loop to forget the
    /// callback once it has handled what the worker sent, and drops the
    /// subscription.
    fn exit_worker(&mut self, key: i32)
        ensures
            final(self)@ == old(self)@.after_exit(key),
    {
        if 1 <= key && key <= self.issued {
            let _ = self.dispatch_queue.remove_callback(key);
            let _ = self.subscriptions.drop_subscription(key);
        }
    }

    /// What the worker of `key` does with a value that it has received and
    /// read; `None` stands for a text that could not be read.
    ///
    /// The value is passed on to the delivery loop if it was read, the
    /// subscription is still live and the loop still takes requests.
    /// Otherwise the subscription ends, with nothing delivered for this
    /// value.
    pub fn worker_value(&mut self, key: i32, value: Option<Value>) -> (step: WorkerStep)
        ensures
            final(self)@ == old(self)@.after_value(key, value),
            step == if old(self)@.forwards(key, value) {
                WorkerStep::Continue
            } else {
                WorkerStep::Exit
            },
            old(self)@.well_formed() ==> final(self)@.well_formed(),
    {
        match value {
            Some(next) => {
                if 1 <= key && key <= self.issued && self.subscriptions.contains(key)
                    && self.dispatch_queue.is_open() {
                    let _ = self.dispatch_queue.dispatch(next, key);
                    return WorkerStep::Continue;
                }
            },
            None => {},
        }
        self.exit_worker(key);
        WorkerStep::Exit
    }

    /// What the worker of `key` does after its blocking receive has returned
    /// `event`.
    pub fn worker_step(&mut self, key: i32, event: WorkerEvent) -> (step: WorkerStep)
        ensures
            final(self)@ == old(self)@.after_event(key, event),
            step == old(self)@.step_on(key, event),
            old(self)@.well_formed() ==> final(self)@.well_formed(),
    {
        proof {
            if self@.well_formed() {
                lemma_well_formed_is_kept(self@, Op::Worker { key, event });
            }
        }
        match event {
            WorkerEvent::Next(text) => {
                let value = read_results(Some(text));
                self.worker_value(key, value)
            },
            WorkerEvent::Closed => {
                self.exit_worker(key);
                WorkerStep::Exit
            },
        }
    }

    /// Lets the delivery loop handle its requests up to the next invocation
    /// of a callback, and returns that invocation; `None` once no request is
    /// left. Only the thread that owns the callbacks calls this.
    pub fn next_delivery(&mut self) -> (delivery: Option<Delivery>)
        ensures
            final(self)@ == old(self)@.after_delivery(),
            match delivery {
                Some(d) => {
                    &&& old(self)@.queue.next_delivered() == Some(d@)
                    &&& final(self)@.queue.callbacks.contains_key(d.subscription)
                },
                None => {
                    &&& old(self)@.queue.next_delivered() is None
                    &&& final(self)@.queue.pending.len() == 0
                },
            },
            old(self)@.well_formed() ==> final(self)@.well_formed(),
    {
        proof {
            if self@.well_formed() {
                lemma_well_formed_is_kept::<H, C>(self@, Op::Deliver);
            }
        }
        self.dispatch_queue.next_delivery()
    }

    /// Lets the delivery loop handle every waiting request, and returns the
    /// invocations that they lead to, in the order in which the caller is to
    /// make them.
    pub fn drain(&mut self) -> (made: Vec<Delivery>)
        ensures
            made.deep_view() == deliveries(old(self)@.queue.callbacks, old(self)@.queue.pending),
            final(self)@ == old(self)@.after_handling(old(self)@.queue.pending.len() as int),
            final(self)@.queue.pending.len() == 0,
            old(self)@.well_formed() ==> final(self)@.well_formed(),
    {
        proof {
            if self@.well_formed() {
                lemma_handling_keeps_well_formed(self@, self@.queue.pending.len() as int);
            }
        }
        self.dispatch_queue.drain()
    }

    /// The callback that is registered for `subscription`.
    pub fn callback(&self, subscription: i32) -> (callback: Option<&C>)
        ensures
            match callback {
                Some(c) => self@.queue.callbacks.contains_key(subscription) && *c
                    == self@.queue.callbacks[subscription],
                None => !self@.queue.callbacks.contains_key(subscription),
            },
    {
        self.dispatch_queue.callback(subscription)
    }

    /// Tears the delivery loop down. No callback is invoked any more, and
    /// every worker stops at its next step.
    pub fn destroy(&mut self)
        ensures
            final(self)@ == old(self)@.after_destroy(),
            old(self)@.well_formed() ==> final(self)@.well_formed(),
    {
        proof {
            if self@.well_formed() {
                lemma_well_formed_is_kept::<H, C>(self@, Op::Destroy);
            }
        }
        self.dispatch_queue.destroy();
    }
}

impl<H, C> IGraphQLService<H, C> for GraphQLService<H, C> {
    fn fetchQuery(&mut self, request: FetchRequest<C>, reply: EngineReply<H>) -> (r: Result<
        Response,
        ServiceError,
    >) {
        match reply {
            EngineReply::ParseError => Err(ServiceError::InvalidArgument),
            EngineReply::ListenError => Err(ServiceError::InternalError),
            EngineReply::Completed { subscription, results } => {
                if self.issued == i32::MAX {
                    return Err(ServiceError::InternalError);
                }
                self.issued = self.issued + 1;
                let key: i32 = self.issued;
                let _ = self.subscriptions.insert(key, subscription);
                let response = immediate_response(read_results(results));
                let _ = self.subscriptions.drop_subscription(key);
                assert(self@.subscriptions =~= old(self)@.subscriptions.remove(key));
                response
            },
            EngineReply::Streaming { subscription } => {
                if self.issued == i32::MAX {
                    return Err(ServiceError::InternalError);
                }
                self.issued = self.issued + 1;
                let key: i32 = self.issued;
                let _ = self.subscriptions.insert(key, subscription);
                self.dispatch_queue.add_subscription(request.next_callback, key);
                Ok(Response::Pending { key, payload: frame_pending(key) })
            },
        }
    }

    fn unsubscribe(&mut self, key: i32) -> (found: bool) {
        proof {
            if self@.well_formed() {
                lemma_well_formed_is_kept::<H, C>(self@, Op::Unsubscribe { key });
            }
        }
        if self.subscriptions.contains(key) {
            let _ = self.dispatch_queue.forget_callback(key);
            self.subscriptions.drop_subscription(key)
        } else {
            false
        }
    }
}

impl<H, C> Default for GraphQLService<H, C> {
    fn default() -> (service: Self)
        ensures
            service@ == ServiceView::<H, C>::fresh(),
            service@.well_formed(),
    {
        GraphQLService::new()
    }
}

} // verus!
