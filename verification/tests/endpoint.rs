use std::cell::RefCell;

use tokio_jsonrpc::endpoint::{
    collect_batch, complete, do_batch, do_msg, do_notification, do_request, endpoint, gather,
    notification_work, request_work, Client, EmptyServer, Inbound, Outcome, Server, Work,
    CONCURRENCY_WINDOW,
};
use tokio_jsonrpc::json::{Json, JsonNumber};
use tokio_jsonrpc::message::{
    Broken, Message, Notification, RPCError, Request, Response, Version,
};

fn num(i: u64) -> Json {
    Json::Number(JsonNumber::PosInt(i))
}

fn text(s: &str) -> Json {
    Json::String(s.to_owned())
}

fn request(method: &str, params: Option<Json>, id: Json) -> Request {
    Request { jsonrpc: Version, method: method.to_owned(), params, id }
}

fn notification(method: &str) -> Notification {
    Notification { jsonrpc: Version, method: method.to_owned(), params: None }
}

fn failure(code: i64, message: &str, data: Option<Json>, id: Json) -> Message {
    Message::Response(Response {
        result: Err(RPCError { code, message: message.to_owned(), data }),
        id,
    })
}

fn success(result: Json, id: Json) -> Message {
    Message::Response(Response { result: Ok(result), id })
}

/// Knows `echo`, which returns its parameters, and `fail`, which fails. It
/// writes down the notifications that it takes.
struct Echo {
    heard: RefCell<Vec<String>>,
}

impl Echo {
    fn new() -> Echo {
        Echo { heard: RefCell::new(Vec::new()) }
    }
}

impl Server for Echo {
    type RPCCallResult = Outcome;
    type NotificationResult = ();

    fn rpc(&self, method: &str, params: &Option<Json>) -> Option<Outcome> {
        match method {
            "echo" => Some(Ok(params.clone().unwrap_or(Json::Null))),
            "fail" => Some(Err((-32000, "failed".to_owned(), params.clone()))),
            _ => None,
        }
    }

    fn notification(&self, method: &str, _params: &Option<Json>) -> Option<()> {
        if method == "hear" {
            self.heard.borrow_mut().push(method.to_owned());
            Some(())
        } else {
            None
        }
    }
}

/// Knows `ping` only, and leaves notifications to the default.
struct Ping;

impl Server for Ping {
    type RPCCallResult = Outcome;
    type NotificationResult = ();

    fn rpc(&self, method: &str, _params: &Option<Json>) -> Option<Outcome> {
        if method == "ping" {
            Some(Ok(text("pong")))
        } else {
            None
        }
    }
}

/// Asks one server, and the other where the first declines.
struct Both<A, B>(A, B);

impl<A, B> Server for Both<A, B>
where
    A: Server<RPCCallResult = Outcome, NotificationResult = ()>,
    B: Server<RPCCallResult = Outcome, NotificationResult = ()>,
{
    type RPCCallResult = Outcome;
    type NotificationResult = ();

    fn rpc(&self, method: &str, params: &Option<Json>) -> Option<Outcome> {
        self.0.rpc(method, params).or_else(|| self.1.rpc(method, params))
    }

    fn notification(&self, method: &str, params: &Option<Json>) -> Option<()> {
        self.0.notification(method, params).or_else(|| self.1.notification(method, params))
    }
}

#[test]
fn the_window_is_four_wide() {
    assert_eq!(CONCURRENCY_WINDOW, 4);
}

#[test]
fn a_request_that_the_server_takes_is_a_call() {
    let server = Echo::new();
    let asked = request("echo", Some(num(5)), num(1));
    let work = do_request(&server, asked.clone());
    assert_eq!(work, Work::Call { request: asked, pending: Ok(num(5)) });
    assert_eq!(complete(work), Some(success(num(5), num(1))));
}

#[test]
fn a_failed_call_is_answered_with_the_servers_error() {
    let server = Echo::new();
    let work = do_msg(&server, Ok(Message::Request(request("fail", Some(text("why")), text("id")))));
    assert_eq!(
        complete(work),
        Some(failure(-32000, "failed", Some(text("why")), text("id")))
    );
}

#[test]
fn a_call_is_answered_by_its_outcome() {
    let asked = request("m", None, num(9));
    assert_eq!(asked.finish(Ok(Json::Bool(true))), success(Json::Bool(true), num(9)));
    assert_eq!(
        asked.finish(Err((-32602, "bad".to_owned(), None))),
        failure(-32602, "bad", None, num(9))
    );
}

#[test]
fn a_request_that_nobody_takes_is_not_found() {
    let expected = failure(-32601, "Method not found", Some(text("nope")), num(3));
    let asked = request("nope", Some(num(1)), num(3));
    assert_eq!(
        do_request(&EmptyServer, asked.clone()),
        Work::Done(Some(expected.clone()))
    );
    assert_eq!(
        do_request(&Both(Echo::new(), Ping), asked.clone()),
        Work::Done(Some(expected.clone()))
    );
    assert_eq!(
        do_request(&Both(Both(Ping, EmptyLike), Echo::new()), asked.clone()),
        Work::Done(Some(expected.clone()))
    );
    assert_eq!(
        request_work::<Outcome, ()>(asked, None),
        Work::Done(Some(expected))
    );
}

/// Declines everything, by the defaults of the trait.
struct EmptyLike;

impl Server for EmptyLike {
    type RPCCallResult = Outcome;
    type NotificationResult = ();
}

#[test]
fn servers_asked_in_turn() {
    let server = Both(Echo::new(), Ping);
    assert_eq!(
        complete(do_msg(&server, Ok(Message::Request(request("ping", None, num(1)))))),
        Some(success(text("pong"), num(1)))
    );
    assert_eq!(
        complete(do_msg(&server, Ok(Message::Request(request("echo", None, num(2)))))),
        Some(success(Json::Null, num(2)))
    );
}

#[test]
fn the_empty_server_declines_everything() {
    assert_eq!(EmptyServer.rpc("anything", &None), None);
    assert_eq!(EmptyServer.notification("anything", &Some(num(1))), None);
    assert_eq!(
        complete(do_msg(&EmptyServer, Ok(Message::notification("n".to_owned(), None)))),
        None
    );
}

#[test]
fn a_notification_gets_no_reply() {
    let server = Echo::new();
    let taken = do_notification(&server, notification("hear"));
    assert_eq!(taken, Work::Notify { running: () });
    assert_eq!(complete(taken), None);
    assert_eq!(*server.heard.borrow(), vec!["hear".to_owned()]);
    let declined = do_notification(&server, notification("other"));
    assert_eq!(declined, Work::Done(None));
    assert_eq!(complete(declined), None);
    assert_eq!(notification_work::<Outcome, ()>(None), Work::Done(None));
    assert_eq!(notification_work::<Outcome, u8>(Some(3)), Work::Notify { running: 3 });
}

#[test]
fn broken_records_are_answered_without_the_server() {
    let server = Echo::new();
    assert_eq!(
        do_msg(&server, Err(Broken::SyntaxError)),
        Work::Done(Some(failure(-32700, "Parse error", None, Json::Null)))
    );
    assert_eq!(
        do_msg(&server, Err(Broken::Unmatched(num(5)))),
        Work::Done(Some(failure(-32600, "Invalid Request", None, Json::Null)))
    );
    assert_eq!(
        do_msg(&server, Ok(Message::SyntaxError)),
        Work::Done(Some(failure(-32700, "Parse error", None, Json::Null)))
    );
    assert_eq!(
        do_msg(&server, Ok(Message::Unmatched(text("x")))),
        Work::Done(Some(failure(-32600, "Invalid Request", None, Json::Null)))
    );
}

#[test]
fn a_response_is_none_of_the_engines_business() {
    let server = Echo::new();
    assert_eq!(do_msg(&server, Ok(success(num(1), num(1)))), Work::Done(None));
}

#[test]
fn a_batch_of_notifications_is_answered_by_nothing() {
    let server = Echo::new();
    let batch = vec![
        Message::notification("hear".to_owned(), None),
        Message::notification("other".to_owned(), None),
        Message::notification("hear".to_owned(), Some(num(1))),
    ];
    let work = do_batch(&server, batch);
    assert_eq!(
        work,
        Work::Batch(vec![
            Work::Notify { running: () },
            Work::Done(None),
            Work::Notify { running: () }
        ])
    );
    assert_eq!(complete(work), None);
    assert_eq!(server.heard.borrow().len(), 2);
}

#[test]
fn an_empty_batch_is_answered_by_nothing() {
    let work = do_msg(&Echo::new(), Ok(Message::Batch(vec![])));
    assert_eq!(work, Work::Batch(vec![]));
    assert_eq!(complete(work), None);
}

#[test]
fn one_broken_member_does_not_cost_the_others_their_reply() {
    let server = Echo::new();
    let batch = Message::Batch(vec![
        Message::Request(request("echo", Some(text("hi")), num(1))),
        Message::Unmatched(num(13)),
    ]);
    assert_eq!(
        complete(do_msg(&server, Ok(batch))),
        Some(Message::Batch(vec![
            success(text("hi"), num(1)),
            failure(-32600, "Invalid Request", None, Json::Null),
        ]))
    );
}

#[test]
fn a_batch_is_as_wide_as_its_members_and_answers_each_request() {
    let server = Echo::new();
    let batch = vec![
        Message::notification("hear".to_owned(), None),
        Message::Request(request("nope", None, num(1))),
        success(num(0), num(77)),
        Message::Request(request("fail", None, num(2))),
        Message::SyntaxError,
        Message::Request(request("echo", Some(num(4)), num(3))),
    ];
    let work = do_batch(&server, batch);
    match &work {
        Work::Batch(parts) => assert_eq!(parts.len(), 6),
        other => panic!("not a batch: {:?}", other),
    }
    assert_eq!(
        complete(work),
        Some(Message::Batch(vec![
            failure(-32601, "Method not found", Some(text("nope")), num(1)),
            failure(-32000, "failed", None, num(2)),
            failure(-32700, "Parse error", None, Json::Null),
            success(num(4), num(3)),
        ]))
    );
}

#[test]
fn a_batch_in_a_batch_is_answered_as_one_reply_of_the_outer() {
    let server = Echo::new();
    let inner = Message::Batch(vec![Message::Request(request("echo", None, num(1)))]);
    let silent = Message::Batch(vec![Message::notification("hear".to_owned(), None)]);
    let outer = Message::Batch(vec![inner, silent]);
    assert_eq!(
        complete(do_msg(&server, Ok(outer))),
        Some(Message::Batch(vec![Message::Batch(vec![success(Json::Null, num(1))])]))
    );
}

#[test]
fn replies_are_collected_as_they_come() {
    assert_eq!(collect_batch(vec![]), None);
    let replies = vec![success(num(2), num(2)), success(num(1), num(1))];
    assert_eq!(collect_batch(replies.clone()), Some(Message::Batch(replies)));
}

#[test]
fn calls_get_numbers_of_their_own() {
    let mut client: Client<&str> = Client::new();
    let (first, sent) = client.call("a".to_owned(), Some(num(1)), "slot a").ok().unwrap();
    assert_eq!(first, 0);
    assert_eq!(sent, Message::Request(request("a", Some(num(1)), num(0))));
    let (second, sent) = client.call("b".to_owned(), None, "slot b").ok().unwrap();
    assert_eq!(second, 1);
    assert_eq!(sent, Message::Request(request("b", None, num(1))));
    // The number of an answered call is not given out again.
    assert!(client.answer(Response { result: Ok(Json::Null), id: num(1) }).is_some());
    let (third, _) = client.call("c".to_owned(), None, "slot c").ok().unwrap();
    assert_eq!(third, 2);
}

#[test]
fn a_response_finds_the_call_that_waits_for_it() {
    let mut client: Client<&str> = Client::new();
    client.call("a".to_owned(), None, "slot a").ok().unwrap();
    client.call("b".to_owned(), None, "slot b").ok().unwrap();
    client.call("c".to_owned(), None, "slot c").ok().unwrap();
    let response = Response { result: Ok(text("done")), id: num(1) };
    assert_eq!(client.answer(response.clone()), Some(("slot b", response.clone())));
    // Once delivered, the call waits no more.
    assert_eq!(client.answer(response), None);
    let failed = Response {
        result: Err(RPCError { code: 1, message: "m".to_owned(), data: None }),
        id: num(2),
    };
    assert_eq!(client.answer(failed.clone()), Some(("slot c", failed)));
    let first = Response { result: Ok(Json::Null), id: num(0) };
    assert_eq!(client.answer(first.clone()), Some(("slot a", first)));
}

#[test]
fn a_response_that_nobody_waits_for_is_dropped() {
    let mut client: Client<u8> = Client::new();
    client.call("a".to_owned(), None, 1).ok().unwrap();
    for id in vec![
        num(5),
        text("0"),
        Json::Null,
        Json::Number(JsonNumber::NegInt(-1)),
        Json::Array(vec![num(0)]),
    ] {
        assert_eq!(client.answer(Response { result: Ok(Json::Null), id }), None);
    }
    // The call that waits is still there.
    let response = Response { result: Ok(Json::Null), id: num(0) };
    assert_eq!(client.answer(response.clone()), Some((1, response)));
}

#[test]
fn a_call_that_timed_out_is_forgotten() {
    let mut client: Client<&str> = Client::new();
    let (id, _) = client.call("slow".to_owned(), None, "slot").ok().unwrap();
    let (other, _) = client.call("fast".to_owned(), None, "other").ok().unwrap();
    assert_eq!(client.timeout(id), Some("slot"));
    // Giving up twice changes nothing.
    assert_eq!(client.timeout(id), None);
    // The late response is no error: it is dropped.
    assert_eq!(client.answer(Response { result: Ok(Json::Null), id: num(id) }), None);
    // Other calls are not touched.
    let response = Response { result: Ok(Json::Null), id: num(other) };
    assert_eq!(client.answer(response.clone()), Some(("other", response)));
    assert_eq!(client.timeout(17), None);
}

#[test]
fn notifying_leaves_no_call_behind() {
    let mut client: Client<u8> = Client::new();
    assert_eq!(
        client.notify("tick".to_owned(), Some(num(1))),
        Message::notification("tick".to_owned(), Some(num(1)))
    );
    let (id, _) = client.call("a".to_owned(), None, 0).ok().unwrap();
    assert_eq!(id, 0);
}

#[test]
fn an_endpoint_hands_responses_to_its_client_and_the_rest_to_its_server() {
    let mut made = endpoint::<Echo, &str>(Echo::new());
    let (id, _) = made.client.call("remote".to_owned(), None, "slot").ok().unwrap();
    let response = Response { result: Ok(num(1)), id: num(id) };
    assert_eq!(
        made.receive(Ok(Message::Response(response.clone()))),
        Inbound::Answer { slot: "slot", response: response.clone() }
    );
    assert_eq!(
        made.receive(Ok(Message::Response(response))),
        Inbound::Work(Work::Done(None))
    );
    let asked = request("echo", Some(num(2)), num(0));
    assert_eq!(
        made.receive(Ok(Message::Request(asked.clone()))),
        Inbound::Work(Work::Call { request: asked, pending: Ok(num(2)) })
    );
    assert_eq!(
        made.receive(Err(Broken::SyntaxError)),
        Inbound::Work(Work::Done(Some(failure(-32700, "Parse error", None, Json::Null))))
    );
    // A response inside a batch is not for the client: the batch is the engine's.
    let inner = Response { result: Ok(num(1)), id: num(5) };
    assert_eq!(
        made.receive(Ok(Message::Batch(vec![Message::Response(inner)]))),
        Inbound::Work(Work::Batch(vec![Work::Done(None)]))
    );
}

#[test]
fn what_the_parts_came_to_is_gathered() {
    assert_eq!(gather(vec![]), None);
    assert_eq!(gather(vec![None, None, None]), None);
    let first = success(num(1), num(1));
    let second = failure(-32600, "Invalid Request", None, Json::Null);
    assert_eq!(
        gather(vec![None, Some(first.clone()), None, Some(second.clone()), None]),
        Some(Message::Batch(vec![first.clone(), second.clone()]))
    );
    // The order is the order in which the parts came to their end.
    assert_eq!(
        gather(vec![Some(second.clone()), None, Some(first.clone())]),
        Some(Message::Batch(vec![second, first.clone()]))
    );
    assert_eq!(gather(vec![Some(first.clone())]), Some(Message::Batch(vec![first])));
}

#[test]
fn the_server_is_asked_with_the_requests_own_method_and_parameters() {
    let asked = RefCell::new(Vec::new());
    let server = Recorder { asked: &asked };
    do_msg(
        &server,
        Ok(Message::Batch(vec![
            Message::Request(request("a", Some(num(1)), num(10))),
            Message::Unmatched(num(5)),
            Message::notification("b".to_owned(), Some(text("x"))),
            success(num(0), num(0)),
            Message::Request(request("c", None, num(11))),
        ])),
    );
    assert_eq!(
        *asked.borrow(),
        vec![
            ("rpc", "a".to_owned(), Some(num(1))),
            ("notification", "b".to_owned(), Some(text("x"))),
            ("rpc", "c".to_owned(), None),
        ]
    );
}

/// Writes down what it is asked and told, and declines.
struct Recorder<'a> {
    asked: &'a RefCell<Vec<(&'static str, String, Option<Json>)>>,
}

impl<'a> Server for Recorder<'a> {
    type RPCCallResult = Outcome;
    type NotificationResult = ();

    fn rpc(&self, method: &str, params: &Option<Json>) -> Option<Outcome> {
        self.asked.borrow_mut().push(("rpc", method.to_owned(), params.clone()));
        None
    }

    fn notification(&self, method: &str, params: &Option<Json>) -> Option<()> {
        self.asked.borrow_mut().push(("notification", method.to_owned(), params.clone()));
        None
    }
}
