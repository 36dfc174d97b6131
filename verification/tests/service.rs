use graphql_service::delivery::Delivery;
use graphql_service::error::ServiceError;
use graphql_service::service::{
    immediate_response, read_results, EngineReply, FetchRequest, GraphQLService, IGraphQLService,
    Response, WorkerEvent, WorkerStep,
};

type Service = GraphQLService<&'static str, &'static str>;

fn utf16(text: &str) -> Vec<u16> {
    text.encode_utf16().collect()
}

fn request(callback: &'static str) -> FetchRequest<&'static str> {
    FetchRequest::new(&utf16("query { me }"), &utf16("Me"), &utf16("{}"), Some(callback)).unwrap()
}

fn completed(text: &str) -> EngineReply<&'static str> {
    EngineReply::Completed { subscription: "handle", results: Some(text.to_string()) }
}

fn streaming() -> EngineReply<&'static str> {
    EngineReply::Streaming { subscription: "handle" }
}

fn next(text: &str) -> WorkerEvent {
    WorkerEvent::Next(text.to_string())
}

fn delivery(subscription: i32, payload: &str) -> Delivery {
    Delivery { subscription, payload: payload.to_string() }
}

fn pending(key: i32) -> Response {
    Response::Pending { key, payload: format!("{{\"pending\":{}}}", key) }
}

#[test]
fn new_service_is_empty() {
    let service = Service::new();
    assert_eq!(service.issued(), 0);
    assert!(service.subscriptions().is_empty());
    assert!(service.dispatch_queue().is_open());
    assert_eq!(service.dispatch_queue().pending_len(), 0);
}

#[test]
fn default_service_is_new() {
    let service = Service::default();
    assert_eq!(service.issued(), 0);
    assert!(service.subscriptions().is_empty());
    assert!(service.dispatch_queue().is_open());
}

#[test]
fn request_keeps_its_arguments() {
    let r = FetchRequest::new(&utf16("query"), &utf16("Op"), &utf16("{\"x\":1}"), Some("cb"))
        .unwrap();
    assert_eq!(r.query, "query");
    assert_eq!(r.operation_name, "Op");
    assert_eq!(r.variables, "{\"x\":1}");
    assert_eq!(r.next_callback, "cb");
}

#[test]
fn request_without_callback_is_refused() {
    let r = FetchRequest::<&str>::new(&utf16("query"), &utf16(""), &utf16(""), None);
    assert_eq!(r.err(), Some(ServiceError::InvalidArgument));
}

#[test]
fn request_with_broken_text_is_refused() {
    let broken: Vec<u16> = vec![0x0071, 0xD800];
    let good = utf16("ok");
    assert_eq!(
        FetchRequest::new(&broken, &good, &good, Some("cb")).err(),
        Some(ServiceError::InvalidArgument)
    );
    assert_eq!(
        FetchRequest::new(&good, &broken, &good, Some("cb")).err(),
        Some(ServiceError::InvalidArgument)
    );
    assert_eq!(
        FetchRequest::new(&good, &good, &broken, Some("cb")).err(),
        Some(ServiceError::InvalidArgument)
    );
}

#[test]
fn query_that_the_engine_rejects_is_an_invalid_argument() {
    let mut service = Service::new();
    let r = service.fetchQuery(request("cb"), EngineReply::ParseError);
    assert_eq!(r, Err(ServiceError::InvalidArgument));
    assert_eq!(service.issued(), 0);
    assert!(service.subscriptions().is_empty());
}

#[test]
fn subscription_that_cannot_be_armed_is_an_internal_error() {
    let mut service = Service::new();
    let r = service.fetchQuery(request("cb"), EngineReply::ListenError);
    assert_eq!(r, Err(ServiceError::InternalError));
    assert_eq!(service.issued(), 0);
    assert!(service.subscriptions().is_empty());
}

#[test]
fn immediate_query_returns_results_and_leaves_no_entry() {
    let mut service = Service::new();
    let r = service.fetchQuery(request("cb"), completed("{\"a\":1}"));
    assert_eq!(r, Ok(Response::Results { payload: "{\"results\":{\"a\":1}}".to_string() }));
    assert!(service.subscriptions().is_empty());
    assert_eq!(service.subscriptions().len(), 0);
    assert_eq!(service.callback(1), None);
    assert_eq!(service.dispatch_queue().pending_len(), 0);
}

#[test]
fn immediate_query_writes_its_value_compactly() {
    let mut service = Service::new();
    let r = service.fetchQuery(request("cb"), completed(" { \"a\" : [ 1 , 2 ] } "));
    assert_eq!(r, Ok(Response::Results { payload: "{\"results\":{\"a\":[1,2]}}".to_string() }));
}

#[test]
fn immediate_query_takes_a_key() {
    let mut service = Service::new();
    let _ = service.fetchQuery(request("cb"), completed("1"));
    assert_eq!(service.issued(), 1);
    let r = service.fetchQuery(request("cb"), streaming());
    assert_eq!(r, Ok(pending(2)));
}

#[test]
fn immediate_query_whose_value_is_missing_fails() {
    let mut service = Service::new();
    let reply = EngineReply::Completed { subscription: "handle", results: None };
    assert_eq!(service.fetchQuery(request("cb"), reply), Err(ServiceError::InternalError));
    assert!(service.subscriptions().is_empty());
}

#[test]
fn immediate_query_whose_value_is_no_json_fails() {
    let mut service = Service::new();
    let r = service.fetchQuery(request("cb"), completed("{\"a\":"));
    assert_eq!(r, Err(ServiceError::InternalError));
    assert!(service.subscriptions().is_empty());
    assert_eq!(service.callback(1), None);
}

#[test]
fn immediate_response_for_a_value() {
    let value = read_results(Some("{\"a\": 1}".to_string()));
    assert!(value.is_some());
    assert_eq!(
        immediate_response(value),
        Ok(Response::Results { payload: "{\"results\":{\"a\":1}}".to_string() })
    );
    assert_eq!(immediate_response(None), Err(ServiceError::InternalError));
}

#[test]
fn read_results_of_nothing_or_of_broken_text() {
    assert_eq!(read_results(None), None);
    assert_eq!(read_results(Some("not json".to_string())), None);
    assert_eq!(read_results(Some("[1]".to_string())), serde_json::from_str("[1]").ok());
}

#[test]
fn pending_query_returns_its_key_and_stays() {
    let mut service = Service::new();
    let r = service.fetchQuery(request("cb"), streaming());
    assert_eq!(r, Ok(Response::Pending { key: 1, payload: "{\"pending\":1}".to_string() }));
    assert_eq!(service.issued(), 1);
    assert_eq!(service.subscriptions().len(), 1);
    assert_eq!(service.subscriptions().get(1), Some(&"handle"));
    assert_eq!(service.callback(1), Some(&"cb"));
}

#[test]
fn pending_keys_are_never_reused() {
    let mut service = Service::new();
    let mut seen: Vec<i32> = Vec::new();
    for round in 0..50 {
        let reply = if round % 3 == 0 { completed("null") } else { streaming() };
        if let Ok(Response::Pending { key, .. }) = service.fetchQuery(request("cb"), reply) {
            assert!(key >= 1);
            assert!(seen.iter().all(|k| *k < key));
            seen.push(key);
            if round % 2 == 0 {
                assert!(service.unsubscribe(key));
            }
        }
    }
    assert_eq!(seen.len(), 33);
    assert_eq!(service.issued(), 50);
}

#[test]
fn unsubscribe_is_idempotent() {
    let mut service = Service::new();
    let _ = service.fetchQuery(request("cb"), streaming());
    assert!(service.unsubscribe(1));
    assert!(service.subscriptions().is_empty());
    assert!(!service.unsubscribe(1));
    assert!(service.subscriptions().is_empty());
}

#[test]
fn unsubscribe_of_an_unknown_key_changes_nothing() {
    let mut service = Service::new();
    let _ = service.fetchQuery(request("cb"), streaming());
    assert!(!service.unsubscribe(2));
    assert!(!service.unsubscribe(0));
    assert!(!service.unsubscribe(-1));
    assert!(!service.unsubscribe(i32::MAX));
    assert_eq!(service.subscriptions().len(), 1);
    assert_eq!(service.callback(1), Some(&"cb"));
    assert_eq!(service.issued(), 1);
}

#[test]
fn streamed_values_are_delivered_in_order_then_the_subscription_ends() {
    let mut service = Service::new();
    let r = service.fetchQuery(request("cb"), streaming());
    assert_eq!(r, Ok(Response::Pending { key: 1, payload: "{\"pending\":1}".to_string() }));
    assert_eq!(service.worker_step(1, next("{\"a\":1}")), WorkerStep::Continue);
    assert_eq!(service.worker_step(1, next("{\"a\":2}")), WorkerStep::Continue);
    assert_eq!(service.worker_step(1, WorkerEvent::Closed), WorkerStep::Exit);
    assert!(service.subscriptions().is_empty());
    assert_eq!(
        service.next_delivery(),
        Some(delivery(1, "{\"next\":{\"a\":1},\"subscription\":1}"))
    );
    assert_eq!(service.callback(1), Some(&"cb"));
    assert_eq!(
        service.next_delivery(),
        Some(delivery(1, "{\"next\":{\"a\":2},\"subscription\":1}"))
    );
    assert_eq!(service.next_delivery(), None);
    assert!(service.subscriptions().is_empty());
    assert_eq!(service.callback(1), None);
}

#[test]
fn three_values_arrive_in_the_order_sent() {
    let mut service = Service::new();
    let _ = service.fetchQuery(request("cb"), streaming());
    for text in ["\"v1\"", "\"v2\"", "\"v3\""] {
        assert_eq!(service.worker_step(1, next(text)), WorkerStep::Continue);
    }
    assert_eq!(
        service.drain(),
        vec![
            delivery(1, "{\"next\":\"v1\",\"subscription\":1}"),
            delivery(1, "{\"next\":\"v2\",\"subscription\":1}"),
            delivery(1, "{\"next\":\"v3\",\"subscription\":1}"),
        ]
    );
}

#[test]
fn values_keep_their_order_whatever_happens_in_between() {
    let mut service = Service::new();
    let _ = service.fetchQuery(request("first"), streaming());
    let _ = service.fetchQuery(request("second"), streaming());
    let mut for_first: Vec<String> = Vec::new();
    assert_eq!(service.worker_step(1, next("\"v1\"")), WorkerStep::Continue);
    assert_eq!(service.worker_step(2, next("\"w1\"")), WorkerStep::Continue);
    if let Some(d) = service.next_delivery() {
        assert_eq!(d.subscription, 1);
        for_first.push(d.payload);
    }
    assert_eq!(service.worker_step(1, next("\"v2\"")), WorkerStep::Continue);
    let third = service.fetchQuery(request("third"), streaming());
    assert_eq!(third, Ok(pending(3)));
    assert_eq!(service.worker_step(3, next("\"x1\"")), WorkerStep::Continue);
    assert_eq!(service.worker_step(2, WorkerEvent::Closed), WorkerStep::Exit);
    assert!(service.unsubscribe(3));
    assert_eq!(service.worker_step(1, next("\"v3\"")), WorkerStep::Continue);
    let _ = service.fetchQuery(request("fourth"), completed("null"));
    while let Some(d) = service.next_delivery() {
        if d.subscription == 1 {
            for_first.push(d.payload);
        } else {
            assert_eq!(d, delivery(2, "{\"next\":\"w1\",\"subscription\":2}"));
        }
    }
    assert_eq!(
        for_first,
        vec![
            "{\"next\":\"v1\",\"subscription\":1}".to_string(),
            "{\"next\":\"v2\",\"subscription\":1}".to_string(),
            "{\"next\":\"v3\",\"subscription\":1}".to_string(),
        ]
    );
    assert_eq!(service.callback(2), None);
    assert_eq!(service.callback(1), Some(&"first"));
}

#[test]
fn two_pending_queries_have_their_own_keys_and_callbacks() {
    let mut service = Service::new();
    let first = service.fetchQuery(request("first"), streaming());
    let second = service.fetchQuery(request("second"), streaming());
    assert_eq!(first, Ok(pending(1)));
    assert_eq!(second, Ok(pending(2)));
    assert_eq!(service.worker_step(2, next("\"b1\"")), WorkerStep::Continue);
    assert_eq!(service.worker_step(1, next("\"a1\"")), WorkerStep::Continue);
    assert_eq!(service.worker_step(1, next("\"a2\"")), WorkerStep::Continue);
    assert_eq!(service.worker_step(2, next("\"b2\"")), WorkerStep::Continue);
    let mut for_first: Vec<String> = Vec::new();
    let mut for_second: Vec<String> = Vec::new();
    while let Some(d) = service.next_delivery() {
        match service.callback(d.subscription) {
            Some(&"first") => {
                assert_eq!(d.subscription, 1);
                for_first.push(d.payload);
            }
            Some(&"second") => {
                assert_eq!(d.subscription, 2);
                for_second.push(d.payload);
            }
            other => panic!("no callback for {}: {:?}", d.subscription, other),
        }
    }
    assert_eq!(
        for_first,
        vec![
            "{\"next\":\"a1\",\"subscription\":1}".to_string(),
            "{\"next\":\"a2\",\"subscription\":1}".to_string(),
        ]
    );
    assert_eq!(
        for_second,
        vec![
            "{\"next\":\"b1\",\"subscription\":2}".to_string(),
            "{\"next\":\"b2\",\"subscription\":2}".to_string(),
        ]
    );
}

#[test]
fn nothing_is_delivered_for_a_subscription_cancelled_before_its_first_value() {
    let mut service = Service::new();
    let _ = service.fetchQuery(request("cb"), streaming());
    assert!(service.unsubscribe(1));
    assert_eq!(service.worker_step(1, next("{\"a\":1}")), WorkerStep::Exit);
    assert_eq!(service.drain(), Vec::<Delivery>::new());
    assert_eq!(service.callback(1), None);
    assert_eq!(service.worker_step(1, next("{\"a\":2}")), WorkerStep::Exit);
    assert_eq!(service.drain(), Vec::<Delivery>::new());
}

#[test]
fn a_value_that_waits_is_not_delivered_after_a_cancellation() {
    let mut service = Service::new();
    let _ = service.fetchQuery(request("cb"), streaming());
    assert_eq!(service.worker_step(1, next("{\"a\":1}")), WorkerStep::Continue);
    assert!(service.unsubscribe(1));
    assert_eq!(service.callback(1), None);
    assert_eq!(service.worker_step(1, next("{\"a\":2}")), WorkerStep::Exit);
    let made = service.drain();
    assert!(made.iter().filter(|d| d.subscription == 1).count() <= 1);
    assert_eq!(made, Vec::<Delivery>::new());
    assert_eq!(service.worker_step(1, next("{\"a\":3}")), WorkerStep::Exit);
    assert_eq!(service.worker_step(1, WorkerEvent::Closed), WorkerStep::Exit);
    assert_eq!(service.drain(), Vec::<Delivery>::new());
}

#[test]
fn two_values_that_wait_are_not_delivered_after_a_cancellation() {
    let mut service = Service::new();
    let _ = service.fetchQuery(request("cb"), streaming());
    assert_eq!(service.worker_step(1, next("{\"a\":1}")), WorkerStep::Continue);
    assert_eq!(service.worker_step(1, next("{\"a\":2}")), WorkerStep::Continue);
    assert_eq!(service.dispatch_queue().pending_len(), 2);
    assert!(service.unsubscribe(1));
    let mut invoked = 0;
    while let Some(d) = service.next_delivery() {
        if d.subscription == 1 {
            invoked += 1;
        }
    }
    assert!(invoked <= 1);
    assert_eq!(invoked, 0);
    assert_eq!(service.dispatch_queue().pending_len(), 0);
    assert_eq!(service.callback(1), None);
    assert!(service.subscriptions().is_empty());
}

#[test]
fn many_values_that_wait_are_dropped_while_others_are_delivered() {
    let mut service = Service::new();
    let _ = service.fetchQuery(request("first"), streaming());
    let _ = service.fetchQuery(request("second"), streaming());
    assert_eq!(service.worker_step(1, next("\"a1\"")), WorkerStep::Continue);
    assert_eq!(service.worker_step(2, next("\"b1\"")), WorkerStep::Continue);
    assert_eq!(service.worker_step(1, next("\"a2\"")), WorkerStep::Continue);
    assert_eq!(service.worker_step(1, next("\"a3\"")), WorkerStep::Continue);
    assert_eq!(service.worker_step(2, next("\"b2\"")), WorkerStep::Continue);
    assert!(service.unsubscribe(1));
    assert_eq!(
        service.drain(),
        vec![
            delivery(2, "{\"next\":\"b1\",\"subscription\":2}"),
            delivery(2, "{\"next\":\"b2\",\"subscription\":2}"),
        ]
    );
    assert_eq!(service.callback(2), Some(&"second"));
}

#[test]
fn a_cancellation_after_the_stream_ended_changes_nothing() {
    let mut service = Service::new();
    let _ = service.fetchQuery(request("cb"), streaming());
    assert_eq!(service.worker_step(1, next("1")), WorkerStep::Continue);
    assert_eq!(service.worker_step(1, next("2")), WorkerStep::Continue);
    assert_eq!(service.worker_step(1, WorkerEvent::Closed), WorkerStep::Exit);
    assert!(!service.unsubscribe(1));
    assert_eq!(service.callback(1), Some(&"cb"));
    assert_eq!(service.dispatch_queue().pending_len(), 3);
    assert_eq!(
        service.drain(),
        vec![
            delivery(1, "{\"next\":1,\"subscription\":1}"),
            delivery(1, "{\"next\":2,\"subscription\":1}"),
        ]
    );
    assert_eq!(service.callback(1), None);
    assert!(!service.unsubscribe(1));
}

#[test]
fn a_cancellation_of_a_key_that_is_not_live_changes_nothing() {
    let mut service = Service::new();
    let _ = service.fetchQuery(request("first"), streaming());
    let _ = service.fetchQuery(request("second"), streaming());
    assert_eq!(service.worker_step(1, next("\"a\"")), WorkerStep::Continue);
    assert_eq!(service.worker_step(1, WorkerEvent::Closed), WorkerStep::Exit);
    for key in [1, 3, 0, -5, i32::MIN, i32::MAX] {
        assert!(!service.unsubscribe(key));
        assert_eq!(service.issued(), 2);
        assert_eq!(service.subscriptions().len(), 1);
        assert!(service.subscriptions().contains(2));
        assert_eq!(service.callback(1), Some(&"first"));
        assert_eq!(service.callback(2), Some(&"second"));
        assert_eq!(service.dispatch_queue().pending_len(), 2);
    }
    assert_eq!(service.drain(), vec![delivery(1, "{\"next\":\"a\",\"subscription\":1}")]);
}

#[test]
fn cancelling_one_subscription_leaves_the_other() {
    let mut service = Service::new();
    let _ = service.fetchQuery(request("first"), streaming());
    let _ = service.fetchQuery(request("second"), streaming());
    assert!(service.unsubscribe(1));
    assert_eq!(service.worker_step(1, next("1")), WorkerStep::Exit);
    assert_eq!(service.worker_step(2, next("2")), WorkerStep::Continue);
    assert_eq!(service.drain(), vec![delivery(2, "{\"next\":2,\"subscription\":2}")]);
    assert_eq!(service.callback(1), None);
    assert_eq!(service.callback(2), Some(&"second"));
    assert!(service.subscriptions().contains(2));
}

#[test]
fn a_value_that_is_no_json_ends_the_subscription_silently() {
    let mut service = Service::new();
    let _ = service.fetchQuery(request("cb"), streaming());
    assert_eq!(service.worker_step(1, next("{\"a\":1}")), WorkerStep::Continue);
    assert_eq!(service.worker_step(1, next("{\"a\":")), WorkerStep::Exit);
    assert!(service.subscriptions().is_empty());
    assert_eq!(service.drain(), vec![delivery(1, "{\"next\":{\"a\":1},\"subscription\":1}")]);
    assert_eq!(service.callback(1), None);
}

#[test]
fn worker_value_passes_a_read_value_on() {
    let mut service = Service::new();
    let _ = service.fetchQuery(request("cb"), streaming());
    let value = read_results(Some("[ 1 ]".to_string()));
    assert_eq!(service.worker_value(1, value), WorkerStep::Continue);
    assert_eq!(service.worker_value(1, None), WorkerStep::Exit);
    assert_eq!(service.drain(), vec![delivery(1, "{\"next\":[1],\"subscription\":1}")]);
}

#[test]
fn a_key_that_was_never_handed_out_has_no_worker() {
    let mut service = Service::new();
    let _ = service.fetchQuery(request("cb"), streaming());
    assert_eq!(service.worker_step(2, next("1")), WorkerStep::Exit);
    assert_eq!(service.worker_step(0, WorkerEvent::Closed), WorkerStep::Exit);
    assert_eq!(service.worker_step(-3, WorkerEvent::Closed), WorkerStep::Exit);
    assert_eq!(service.dispatch_queue().pending_len(), 0);
    let second = service.fetchQuery(request("second"), streaming());
    assert_eq!(second, Ok(pending(2)));
    assert_eq!(service.worker_step(2, next("1")), WorkerStep::Continue);
    assert_eq!(service.drain(), vec![delivery(2, "{\"next\":1,\"subscription\":2}")]);
    assert_eq!(service.callback(2), Some(&"second"));
}

#[test]
fn nothing_is_delivered_once_the_loop_is_torn_down() {
    let mut service = Service::new();
    let _ = service.fetchQuery(request("cb"), streaming());
    assert_eq!(service.worker_step(1, next("1")), WorkerStep::Continue);
    service.destroy();
    assert!(!service.dispatch_queue().is_open());
    assert_eq!(service.drain(), Vec::<Delivery>::new());
    assert_eq!(service.callback(1), None);
    assert!(service.subscriptions().contains(1));
    assert_eq!(service.worker_step(1, next("2")), WorkerStep::Exit);
    assert!(service.subscriptions().is_empty());
    assert_eq!(service.next_delivery(), None);
}
