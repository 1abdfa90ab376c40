//! The endpoint of a connection: what is answered to each record that
//! arrives, and which waiting call an arriving response belongs to.
//!
//! Nothing here waits. A [`Server`] may take a request and hand back a
//! computation that is still running; [`do_msg`] then returns the [`Work`]
//! that is left, and whoever runs the computation to its end comes back with
//! the outcome: [`Request::finish`] answers a call that has ended, and
//! [`gather`] makes the reply to a batch of what its parts came to.
//! [`complete`] does all of it for work whose computations have ended
//! already. A [`Client`] keeps the table of the calls that wait for their
//! response.

use crate::json::{option_view, Json, JsonNumber, JsonValue};
use crate::message::{
    lemma_batch_view, messages_view, reply_view, Broken, BrokenValue, Message, MessageValue,
    Notification, NotificationValue, Parsed, RPCErrorValue, Request, RequestValue, Response,
    ResponseValue, Version,
};
use vstd::prelude::*;

verus! {

/// How many computations of one connection run at the same time, unless the
/// caller asks for another number.
pub const CONCURRENCY_WINDOW: usize = 4;

/// How a call ends: with its result, or with the code, the message and the
/// data of an error.
pub type Outcome = Result<Json, (i64, String, Option<Json>)>;

/// The value of an [`Outcome`].
pub type OutcomeValue = Result<JsonValue, (i64, Seq<char>, Option<JsonValue>)>;

/// The value of `outcome`.
pub open spec fn outcome_value(outcome: Outcome) -> OutcomeValue {
    match outcome {
        Ok(result) => Ok(result@),
        Err((code, message, data)) => Err((code, message@, option_view(data))),
    }
}

/// What an application offers to the other side of the connection.
///
/// Either method may decline by returning `None`: the method is not known
/// to this server. That is what makes it possible to ask several servers in
/// turn. What a method returns otherwise stands for a computation that may
/// still be running; the endpoint never looks into it.
pub trait Server {
    /// The computation behind a call. It ends in an [`Outcome`].
    type RPCCallResult;

    /// The computation behind a notification. How it ends is of no
    /// interest.
    type NotificationResult;

    /// The methods that the server may take a request for. A server that
    /// does not say takes what it likes.
    open spec fn knows(&self, method: Seq<char>) -> bool {
        true
    }

    /// The methods that the server may take a notification of. A server
    /// that does not say takes what it likes.
    open spec fn hears(&self, method: Seq<char>) -> bool {
        true
    }

    /// Called with each request that arrives. Unless a server says
    /// otherwise, it declines.
    fn rpc(&self, method: &str, _params: &Option<Json>) -> (taken: Option<Self::RPCCallResult>)
        ensures
            taken is Some ==> self.knows(method@),
    {
        None
    }

    /// Called with each notification that arrives. Unless a server says
    /// otherwise, it declines.
    fn notification(&self, method: &str, _params: &Option<Json>) -> (taken: Option<
        Self::NotificationResult,
    >)
        ensures
            taken is Some ==> self.hears(method@),
    {
        None
    }
}

/// The server that knows no method at all, for an endpoint that only calls.
pub struct EmptyServer;

impl Server for EmptyServer {
    type RPCCallResult = Outcome;

    type NotificationResult = Result<(), ()>;

    open spec fn knows(&self, method: Seq<char>) -> bool {
        false
    }

    open spec fn hears(&self, method: Seq<char>) -> bool {
        false
    }

    fn rpc(&self, _method: &str, _params: &Option<Json>) -> (taken: Option<Outcome>) {
        None
    }

    fn notification(&self, _method: &str, _params: &Option<Json>) -> (taken: Option<
        Result<(), ()>,
    >) {
        None
    }
}

/// What is left to do for one record that arrived. `R` and `N` are the
/// computations of the server that took part of it.
#[derive(Debug, PartialEq)]
pub enum Work<R, N> {
    /// Nothing is left: the reply is known, or it is known that there is
    /// none.
    Done(Option<Message>),
    /// The server took the request. Its outcome decides the reply, which
    /// goes to the id of the request.
    Call { request: Request, pending: R },
    /// The server took the notification. There will be no reply.
    Notify { running: N },
    /// A batch: the work for each member, in the order of the members. The
    /// replies of all of them are sent as one message.
    Batch(Vec<Work<R, N>>),
}

impl RequestValue {
    /// The response to a request whose call ended in `outcome`.
    pub open spec fn finish(self, outcome: OutcomeValue) -> MessageValue {
        match outcome {
            Ok(result) => self.reply(result),
            Err((code, message, data)) => self.error(code, message, data),
        }
    }
}

impl Request {
    /// Answers the request once its call has ended: a result becomes a
    /// response that carries it, a failure an error response with the
    /// server's code, message and data. Both go to the id of the request.
    pub fn finish(&self, outcome: Outcome) -> (reply: Message)
        ensures
            reply@ == self@.finish(outcome_value(outcome)),
    {
        match outcome {
            Ok(result) => self.reply(result),
            Err((code, message, data)) => self.error(code, message, data),
        }
    }
}

/// The work for a request, given what the server said to it. A server that
/// declines leaves nothing to wait for: the reply is "method not found".
pub fn request_work<R, N>(request: Request, taken: Option<R>) -> (work: Work<R, N>)
    ensures
        match taken {
            None => work matches Work::Done(reply) && reply_view(reply) == Some(
                request@.not_found(),
            ),
            Some(pending) => work == (Work::<R, N>::Call { request, pending }),
        },
{
    match taken {
        None => Work::Done(Some(request.not_found())),
        Some(pending) => Work::Call { request, pending },
    }
}

/// The work for a notification, given what the server said to it. No reply
/// comes of it either way.
pub fn notification_work<R, N>(taken: Option<N>) -> (work: Work<R, N>)
    ensures
        match taken {
            None => work == Work::<R, N>::Done(None),
            Some(running) => work == (Work::<R, N>::Notify { running }),
        },
{
    match taken {
        None => Work::Done(None),
        Some(running) => Work::Notify { running },
    }
}

/// Whether `taken` is what the server returned when it was asked for the
/// method of `request`, with the parameters of `request`.
pub open spec fn asked<S: Server>(
    server: &S,
    request: Request,
    taken: Option<S::RPCCallResult>,
) -> bool {
    exists|method: &str|
        #![trigger call_ensures(S::rpc, (server, method, &request.params), taken)]
        method@ == request.method@ && call_ensures(
            S::rpc,
            (server, method, &request.params),
            taken,
        )
}

/// Whether `taken` is what the server returned when it was told of the
/// method of `notification`, with the parameters of `notification`.
pub open spec fn told<S: Server>(
    server: &S,
    notification: Notification,
    taken: Option<S::NotificationResult>,
) -> bool {
    exists|method: &str|
        #![trigger call_ensures(S::notification, (server, method, &notification.params), taken)]
        method@ == notification.method@ && call_ensures(
            S::notification,
            (server, method, &notification.params),
            taken,
        )
}

/// Whether `work` is what the engine leaves for `message` where `server`
/// is asked.
///
/// For a request the server was asked, with the method and the parameters
/// of the request. Where it declined, the request is answered at once with
/// "method not found"; where it took the request, the work is the call that
/// it returned. For a notification the server was told in the same way, and
/// the work is done without a reply, or is the computation that the server
/// returned. A batch leaves one part for each member. Every other message
/// is done, and the server was not asked: the two recovery marks with
/// their error, a response without a reply.
pub open spec fn planned<S: Server>(
    server: &S,
    message: Message,
    work: Work<S::RPCCallResult, S::NotificationResult>,
) -> bool
    decreases message,
{
    match message {
        Message::Request(request) => match work {
            Work::Done(reply) => {
                &&& asked(server, request, None)
                &&& reply_view(reply) == Some(request@.not_found())
            },
            Work::Call { request: taken, pending } => {
                &&& asked(server, request, Some(pending))
                &&& server.knows(request.method@)
                &&& taken == request
            },
            _ => false,
        },
        Message::Notification(notification) => match work {
            Work::Done(reply) => told(server, notification, None) && reply is None,
            Work::Notify { running } => {
                &&& told(server, notification, Some(running))
                &&& server.hears(notification.method@)
            },
            _ => false,
        },
        Message::Response(_) => work matches Work::Done(reply) && reply is None,
        Message::Batch(members) => {
            &&& work is Batch
            &&& work->Batch_0@.len() == members@.len()
            &&& forall|i: int|
                0 <= i < members@.len() ==> planned(
                    server,
                    members@[i],
                    #[trigger] work->Batch_0@[i],
                )
        },
        Message::Unmatched(json) => work matches Work::Done(reply) && reply_view(reply) == Some(
            BrokenValue::Unmatched(json@).reply(),
        ),
        Message::SyntaxError => work matches Work::Done(reply) && reply_view(reply) == Some(
            BrokenValue::SyntaxError.reply(),
        ),
    }
}

/// Whether `work` is what the engine leaves for a record where `server` is
/// asked. A broken record is answered at once, with its error.
pub open spec fn planned_for<S: Server>(
    server: &S,
    record: Parsed,
    work: Work<S::RPCCallResult, S::NotificationResult>,
) -> bool {
    match record {
        Ok(message) => planned(server, message, work),
        Err(broken) => work matches Work::Done(reply) && reply_view(reply) == Some(
            broken@.reply(),
        ),
    }
}

/// Hands a request to the server.
///
/// The server is called once, with the method and the parameters of the
/// request. Where it declines, the reply is ready: "method not found", with
/// the name of the method as its data. Where it takes the request, the work
/// holds the request and the server's computation.
pub fn do_request<S: Server>(server: &S, request: Request) -> (work: Work<
    S::RPCCallResult,
    S::NotificationResult,
>)
    ensures
        planned(server, Message::Request(request), work),
{
    let method = request.method.as_str();
    let taken = server.rpc(method, &request.params);
    assert(call_ensures(S::rpc, (server, method, &request.params), taken));
    request_work(request, taken)
}

/// Hands a notification to the server.
///
/// The server is called once, with the method and the parameters of the
/// notification. Where it declines, the work is done. Where it takes the
/// notification, the work is the computation that it returned. No reply
/// comes of it either way.
pub fn do_notification<S: Server>(server: &S, notification: Notification) -> (work: Work<
    S::RPCCallResult,
    S::NotificationResult,
>)
    ensures
        planned(server, Message::Notification(notification), work),
{
    let method = notification.method.as_str();
    let taken = server.notification(method, &notification.params);
    assert(call_ensures(S::notification, (server, method, &notification.params), taken));
    notification_work(taken)
}

/// Hands each member of a batch to the engine, on its own.
///
/// The work that is left has one part for each member, in the order of the
/// members: as many parts as the batch is wide.
pub fn do_batch<S: Server>(server: &S, batch: Vec<Message>) -> (work: Work<
    S::RPCCallResult,
    S::NotificationResult,
>)
    ensures
        planned(server, Message::Batch(batch), work),
    decreases batch,
{
    let ghost members = batch@;
    let mut parts: Vec<Work<S::RPCCallResult, S::NotificationResult>> = Vec::new();
    for member in it: batch
        invariant
            it.seq() == members,
            parts@.len() == it.index(),
            forall|i: int|
                0 <= i < parts@.len() ==> planned(server, members[i], #[trigger] parts@[i]),
    {
        parts.push(do_message(server, member));
    }
    Work::Batch(parts)
}

/// Decides what is left to do for one message.
pub fn do_message<S: Server>(server: &S, message: Message) -> (work: Work<
    S::RPCCallResult,
    S::NotificationResult,
>)
    ensures
        planned(server, message, work),
    decreases message,
{
    match message {
        Message::Request(request) => do_request(server, request),
        Message::Notification(notification) => do_notification(server, notification),
        Message::Batch(batch) => do_batch(server, batch),
        Message::Unmatched(json) => Work::Done(Some(Broken::Unmatched(json).reply())),
        Message::SyntaxError => Work::Done(Some(Broken::SyntaxError.reply())),
        Message::Response(_) => Work::Done(None),
    }
}

/// Decides what is left to do for one record that arrived.
///
/// | record | work |
/// |---|---|
/// | not JSON | done: a parse error |
/// | JSON, but no message | done: an invalid request |
/// | request | done with "method not found", or a call |
/// | notification | done without a reply, or a notification that runs |
/// | batch | the work for each member |
/// | response | done without a reply: it belongs to the client |
pub fn do_msg<S: Server>(server: &S, msg: Parsed) -> (work: Work<
    S::RPCCallResult,
    S::NotificationResult,
>)
    ensures
        planned_for(server, msg, work),
{
    match msg {
        Err(broken) => Work::Done(Some(broken.reply())),
        Ok(message) => do_message(server, message),
    }
}

/// The one message that a batch is answered with: none at all where no
/// member was answered, else a batch of the replies.
pub open spec fn batch_reply(replies: Seq<MessageValue>) -> Option<MessageValue> {
    if replies.len() == 0 {
        None
    } else {
        Some(MessageValue::Batch(replies))
    }
}

/// Wraps the replies to the members of a batch into the reply to the batch.
///
/// The replies stay in the order in which they are handed in. That need not
/// be the order of the members: who waits for a reply finds it by its id.
pub fn collect_batch(replies: Vec<Message>) -> (reply: Option<Message>)
    ensures
        reply_view(reply) == batch_reply(messages_view(replies@)),
{
    if replies.len() == 0 {
        None
    } else {
        proof {
            lemma_batch_view(replies);
        }
        Some(Message::Batch(replies))
    }
}

/// The values of replies that may be absent, in their order.
pub open spec fn outcomes_view(outcomes: Seq<Option<Message>>) -> Seq<Option<MessageValue>> {
    Seq::new(outcomes.len(), |i: int| reply_view(outcomes[i]))
}

/// The replies among `outcomes`, in their order. Where there is none, no gap
/// is left.
pub open spec fn present(outcomes: Seq<Option<MessageValue>>) -> Seq<MessageValue>
    decreases outcomes.len(),
{
    if outcomes.len() == 0 {
        Seq::empty()
    } else {
        match outcomes.last() {
            Some(reply) => present(outcomes.drop_last()).push(reply),
            None => present(outcomes.drop_last()),
        }
    }
}

/// Makes the reply to a batch of what its parts came to.
///
/// Each part came to a reply or to none. The replies are kept, in the order
/// in which they are handed in, and are sent as one batch; where no part
/// came to a reply, nothing is sent.
pub fn gather(outcomes: Vec<Option<Message>>) -> (reply: Option<Message>)
    ensures
        reply_view(reply) == batch_reply(present(outcomes_view(outcomes@))),
{
    let ghost all = outcomes_view(outcomes@);
    let mut replies: Vec<Message> = Vec::new();
    assert(all.take(0) =~= Seq::<Option<MessageValue>>::empty());
    for outcome in it: outcomes
        invariant
            all == outcomes_view(it.seq()),
            messages_view(replies@) == present(all.take(it.index() as int)),
    {
        let ghost before = messages_view(replies@);
        let ghost i = it.index() as int;
        assert(all.take(i + 1).drop_last() =~= all.take(i));
        assert(all.take(i + 1).last() == reply_view(outcome));
        if let Some(reply) = outcome {
            replies.push(reply);
            assert(messages_view(replies@) =~= before.push(reply@));
        }
    }
    assert(all.take(all.len() as int) =~= all);
    collect_batch(replies)
}

/// How the calls of a server that answers at once have ended: each is its
/// own outcome.
pub open spec fn ended_already() -> spec_fn(Outcome) -> OutcomeValue {
    |outcome: Outcome| outcome_value(outcome)
}

/// The reply that `work` comes to where each call `pending` in it ends as
/// `ends(pending)`: a call is answered by its outcome, a notification by
/// nothing, and a batch by what is gathered from its parts, in their order.
pub open spec fn settled<R, N>(work: Work<R, N>, ends: spec_fn(R) -> OutcomeValue) -> Option<
    MessageValue,
>
    decreases work, 0nat,
{
    match work {
        Work::Done(reply) => reply_view(reply),
        Work::Call { request, pending } => Some(request@.finish(ends(pending))),
        Work::Notify { .. } => None,
        Work::Batch(parts) => batch_reply(present(settled_parts(parts@, parts@.len(), ends))),
    }
}

/// What each of the first `n` of `parts` comes to, in the order of the
/// parts.
pub open spec fn settled_parts<R, N>(
    parts: Seq<Work<R, N>>,
    n: nat,
    ends: spec_fn(R) -> OutcomeValue,
) -> Seq<Option<MessageValue>>
    decreases parts, n,
{
    if n == 0 || n > parts.len() {
        Seq::empty()
    } else {
        settled_parts(parts, (n - 1) as nat, ends).push(settled(parts[n - 1], ends))
    }
}

/// What the parts come to, one by one.
pub proof fn lemma_settled_parts<R, N>(
    parts: Seq<Work<R, N>>,
    n: nat,
    ends: spec_fn(R) -> OutcomeValue,
)
    requires
        n <= parts.len(),
    ensures
        settled_parts(parts, n, ends).len() == n,
        forall|i: int|
            0 <= i < n ==> (#[trigger] settled_parts(parts, n, ends)[i]) == settled(
                parts[i],
                ends,
            ),
    decreases n,
{
    if n > 0 {
        lemma_settled_parts(parts, (n - 1) as nat, ends);
    }
}

/// Brings work to its end whose calls have all ended: each call is answered
/// by its outcome, and what the parts of a batch come to is gathered in the
/// order of the parts.
pub fn complete<N>(work: Work<Outcome, N>) -> (reply: Option<Message>)
    ensures
        reply_view(reply) == settled(work, ended_already()),
    decreases work,
{
    let ghost whole = work;
    match work {
        Work::Done(reply) => reply,
        Work::Call { request, pending } => Some(request.finish(pending)),
        Work::Notify { .. } => None,
        Work::Batch(parts) => {
            let ghost all = parts@;
            let mut outcomes: Vec<Option<Message>> = Vec::new();
            for part in it: parts
                invariant
                    whole == work,
                    whole is Batch,
                    whole->Batch_0@ == all,
                    it.seq() == all,
                    outcomes@.len() == it.index(),
                    forall|k: int|
                        0 <= k < outcomes@.len() ==> reply_view(#[trigger] outcomes@[k]) == settled(
                            all[k],
                            ended_already(),
                        ),
            {
                assert(decreases_to!(whole => whole->Batch_0));
                assert(decreases_to!(whole->Batch_0 => whole->Batch_0@));
                assert(decreases_to!(all => all[it.index() as int]));
                outcomes.push(complete(part));
            }
            proof {
                lemma_settled_parts(all, all.len(), ended_already());
                assert(outcomes_view(outcomes@) =~= settled_parts(
                    all,
                    all.len(),
                    ended_already(),
                ));
            }
            gather(outcomes)
        },
    }
}

/// Whether no reply can come of `work`, however its computations end.
pub open spec fn silent<R, N>(work: Work<R, N>) -> bool
    decreases work,
{
    match work {
        Work::Done(reply) => reply is None,
        Work::Call { .. } => false,
        Work::Notify { .. } => true,
        Work::Batch(parts) => forall|i: int| 0 <= i < parts@.len() ==> silent(#[trigger] parts@[i]),
    }
}

/// A batch that holds nothing but notifications leaves work of which no
/// reply can come.
pub proof fn lemma_notifications_are_silent<S: Server>(
    server: &S,
    members: Vec<Message>,
    work: Work<S::RPCCallResult, S::NotificationResult>,
)
    requires
        planned(server, Message::Batch(members), work),
        forall|i: int| 0 <= i < members@.len() ==> members@[i] is Notification,
    ensures
        silent(work),
{
    let parts = work->Batch_0;
    assert forall|i: int| 0 <= i < parts@.len() implies silent(#[trigger] parts@[i]) by {
        assert(planned(server, members@[i], parts@[i]));
    }
}

/// Where nothing came of any part, nothing is gathered.
pub proof fn lemma_nothing_present(outcomes: Seq<Option<MessageValue>>)
    requires
        forall|i: int| 0 <= i < outcomes.len() ==> (#[trigger] outcomes[i]) is None,
    ensures
        present(outcomes).len() == 0,
    decreases outcomes.len(),
{
    if outcomes.len() > 0 {
        assert(outcomes.last() == outcomes[outcomes.len() - 1]);
        assert forall|i: int| 0 <= i < outcomes.drop_last().len() implies (
        #[trigger] outcomes.drop_last()[i]) is None by {
            assert(outcomes.drop_last()[i] == outcomes[i]);
        }
        lemma_nothing_present(outcomes.drop_last());
    }
}

/// Where a reply came of every part, the replies are gathered one for
/// one: as many as there are parts, each in the place of its part.
pub proof fn lemma_all_present(outcomes: Seq<Option<MessageValue>>)
    requires
        forall|i: int| 0 <= i < outcomes.len() ==> (#[trigger] outcomes[i]) is Some,
    ensures
        present(outcomes).len() == outcomes.len(),
        forall|i: int| 0 <= i < outcomes.len() ==> outcomes[i] == Some(#[trigger] present(outcomes)[i]),
    decreases outcomes.len(),
{
    if outcomes.len() > 0 {
        assert(outcomes.last() == outcomes[outcomes.len() - 1]);
        assert forall|i: int| 0 <= i < outcomes.drop_last().len() implies (
        #[trigger] outcomes.drop_last()[i]) is Some by {
            assert(outcomes.drop_last()[i] == outcomes[i]);
        }
        lemma_all_present(outcomes.drop_last());
        assert forall|i: int| 0 <= i < outcomes.len() implies outcomes[i] == Some(
            #[trigger] present(outcomes)[i],
        ) by {
            if i < outcomes.len() - 1 {
                assert(outcomes.drop_last()[i] == outcomes[i]);
                assert(present(outcomes)[i] == present(outcomes.drop_last())[i]);
            }
        }
    }
}

/// No reply is lost when the parts of a batch are gathered, and none is
/// made up: the reply of each part is among those gathered, and each of
/// those is the reply of some part. This holds in whatever order the parts
/// are handed in.
pub proof fn lemma_every_reply_present(outcomes: Seq<Option<MessageValue>>)
    ensures
        present(outcomes).len() <= outcomes.len(),
        forall|i: int|
            0 <= i < outcomes.len() && (#[trigger] outcomes[i]) is Some ==> present(
                outcomes,
            ).contains(outcomes[i]->0),
        forall|k: int|
            0 <= k < present(outcomes).len() ==> outcomes.contains(
                Some(#[trigger] present(outcomes)[k]),
            ),
    decreases outcomes.len(),
{
    if outcomes.len() > 0 {
        let earlier = outcomes.drop_last();
        let last = outcomes.last();
        lemma_every_reply_present(earlier);
        assert(last == outcomes[outcomes.len() - 1]);
        assert forall|i: int| 0 <= i < outcomes.len() && (#[trigger] outcomes[i]) is Some implies present(
            outcomes,
        ).contains(outcomes[i]->0) by {
            if i < outcomes.len() - 1 {
                assert(earlier[i] == outcomes[i]);
                let k = choose|k: int|
                    0 <= k < present(earlier).len() && present(earlier)[k] == outcomes[i]->0;
                assert(present(outcomes)[k] == outcomes[i]->0);
            } else {
                assert(present(outcomes)[present(earlier).len() as int] == outcomes[i]->0);
            }
        }
        assert forall|k: int| 0 <= k < present(outcomes).len() implies outcomes.contains(
            Some(#[trigger] present(outcomes)[k]),
        ) by {
            if k < present(earlier).len() {
                assert(present(outcomes)[k] == present(earlier)[k]);
                let i = choose|i: int|
                    0 <= i < earlier.len() && earlier[i] == Some(present(earlier)[k]);
                assert(outcomes[i] == earlier[i]);
            } else {
                assert(last == Some(present(outcomes)[k]));
            }
        }
    }
}

/// Work of which no reply can come ends without a message, however its
/// calls end: not an empty batch, nothing at all.
pub proof fn lemma_silent_settles_to_nothing<R, N>(
    work: Work<R, N>,
    ends: spec_fn(R) -> OutcomeValue,
)
    requires
        silent(work),
    ensures
        settled(work, ends) is None,
    decreases work,
{
    match work {
        Work::Batch(parts) => {
            let outcomes = settled_parts(parts@, parts@.len(), ends);
            lemma_settled_parts(parts@, parts@.len(), ends);
            assert forall|i: int| 0 <= i < outcomes.len() implies (#[trigger] outcomes[i]) is None by {
                assert(silent(parts@[i]));
                lemma_silent_settles_to_nothing(parts@[i], ends);
            }
            lemma_nothing_present(outcomes);
        },
        _ => {},
    }
}

/// A batch that holds nothing but notifications is answered by no message
/// at all, whatever the server does with them.
pub proof fn lemma_notifications_are_not_answered<S: Server>(
    server: &S,
    members: Vec<Message>,
    work: Work<S::RPCCallResult, S::NotificationResult>,
    ends: spec_fn(S::RPCCallResult) -> OutcomeValue,
)
    requires
        planned(server, Message::Batch(members), work),
        forall|i: int| 0 <= i < members@.len() ==> members@[i] is Notification,
    ensures
        settled(work, ends) is None,
{
    lemma_notifications_are_silent(server, members, work);
    lemma_silent_settles_to_nothing(work, ends);
}

/// A request is answered whatever the server does with it and however its
/// call ends, and the reply is a response that carries the id of the
/// request.
pub proof fn lemma_request_is_answered<S: Server>(
    server: &S,
    request: Request,
    work: Work<S::RPCCallResult, S::NotificationResult>,
    ends: spec_fn(S::RPCCallResult) -> OutcomeValue,
)
    requires
        planned(server, Message::Request(request), work),
    ensures
        settled(work, ends) is Some,
        settled(work, ends)->0 is Response,
        settled(work, ends)->0->Response_0.id == request@.id,
{
}

/// What comes of each member of a batch is its own affair: it depends on
/// that member and on how its own call ends, not on its neighbours. A
/// request comes to one response with its id, a broken member to its error,
/// a notification and a response to nothing.
pub proof fn lemma_member_is_answered<S: Server>(
    server: &S,
    members: Vec<Message>,
    work: Work<S::RPCCallResult, S::NotificationResult>,
    ends: spec_fn(S::RPCCallResult) -> OutcomeValue,
    i: int,
)
    requires
        planned(server, Message::Batch(members), work),
        0 <= i < members@.len(),
    ensures
        work is Batch,
        work->Batch_0@.len() == members@.len(),
        match members@[i] {
            Message::Request(request) => {
                &&& settled(work->Batch_0@[i], ends) is Some
                &&& settled(work->Batch_0@[i], ends)->0 is Response
                &&& settled(work->Batch_0@[i], ends)->0->Response_0.id == request@.id
            },
            Message::Unmatched(json) => settled(work->Batch_0@[i], ends) == Some(
                BrokenValue::Unmatched(json@).reply(),
            ),
            Message::SyntaxError => settled(work->Batch_0@[i], ends) == Some(
                BrokenValue::SyntaxError.reply(),
            ),
            Message::Notification(_) => settled(work->Batch_0@[i], ends) is None,
            Message::Response(_) => settled(work->Batch_0@[i], ends) is None,
            Message::Batch(_) => true,
        },
{
    assert(planned(server, members@[i], work->Batch_0@[i]));
}

/// A request and a broken member in one batch, in either order: whatever
/// the server does with the request and however its call ends, the batch is
/// answered by exactly two replies, the response to the request and the
/// "invalid request" for the broken member. This holds in whichever order
/// the two replies are gathered.
pub proof fn lemma_broken_neighbour<S: Server>(
    server: &S,
    members: Vec<Message>,
    work: Work<S::RPCCallResult, S::NotificationResult>,
    ends: spec_fn(S::RPCCallResult) -> OutcomeValue,
    at: int,
)
    requires
        planned(server, Message::Batch(members), work),
        members@.len() == 2,
        0 <= at < 2,
        members@[at] is Request,
        members@[1 - at] is Unmatched,
    ensures
        work is Batch,
        work->Batch_0@.len() == 2,
        ({
            let answer = settled(work->Batch_0@[at], ends);
            let refusal = settled(work->Batch_0@[1 - at], ends);
            &&& answer is Some
            &&& answer->0 is Response
            &&& answer->0->Response_0.id == members@[at]->Request_0@.id
            &&& refusal == Some(BrokenValue::Unmatched(members@[1 - at]->Unmatched_0@).reply())
            &&& batch_reply(present(seq![answer, refusal])) == Some(
                MessageValue::Batch(seq![answer->0, refusal->0]),
            )
            &&& batch_reply(present(seq![refusal, answer])) == Some(
                MessageValue::Batch(seq![refusal->0, answer->0]),
            )
            &&& settled(work, ends) == if at == 0 {
                batch_reply(present(seq![answer, refusal]))
            } else {
                batch_reply(present(seq![refusal, answer]))
            }
        }),
{
    let parts = work->Batch_0;
    let answer = settled(parts@[at], ends);
    let refusal = settled(parts@[1 - at], ends);
    lemma_member_is_answered(server, members, work, ends, at);
    lemma_member_is_answered(server, members, work, ends, 1 - at);
    lemma_all_present(seq![answer, refusal]);
    lemma_all_present(seq![refusal, answer]);
    assert(present(seq![answer, refusal]) =~= seq![answer->0, refusal->0]);
    assert(present(seq![refusal, answer]) =~= seq![refusal->0, answer->0]);
    lemma_batch_is_gathered(parts, ends);
    let outcomes = Seq::new(parts@.len(), |i: int| settled(parts@[i], ends));
    if at == 0 {
        assert(outcomes =~= seq![answer, refusal]);
    } else {
        assert(outcomes =~= seq![refusal, answer]);
    }
}

/// A batch comes to what is gathered from its parts.
pub proof fn lemma_batch_is_gathered<R, N>(
    parts: Vec<Work<R, N>>,
    ends: spec_fn(R) -> OutcomeValue,
)
    ensures
        settled(Work::Batch(parts), ends) == batch_reply(
            present(Seq::new(parts@.len(), |i: int| settled(parts@[i], ends))),
        ),
{
    lemma_settled_parts(parts@, parts@.len(), ends);
    assert(settled_parts(parts@, parts@.len(), ends) =~= Seq::new(
        parts@.len(),
        |i: int| settled(parts@[i], ends),
    ));
}

/// What the engine leaves for a request of a method that the server does
/// not know: nothing but the reply "method not found". So a request that
/// every server of a chain declines is answered with that error.
pub proof fn lemma_unknown_method<S: Server>(
    server: &S,
    request: Request,
    work: Work<S::RPCCallResult, S::NotificationResult>,
)
    requires
        planned(server, Message::Request(request), work),
        !server.knows(request.method@),
    ensures
        work matches Work::Done(reply) && reply_view(reply) == Some(request@.not_found()),
{
}

/// The reply to a request that every server declines: the error "method
/// not found", with the name of the method as its data.
pub proof fn lemma_declined_request(request: RequestValue)
    ensures
        request.not_found() == MessageValue::Response(
            ResponseValue {
                result: Err(
                    RPCErrorValue {
                        code: -32601i64,
                        message: "Method not found"@,
                        data: Some(JsonValue::String(request.method)),
                    },
                ),
                id: request.id,
            },
        ),
{
}

/// The id that a call goes out with: its number, as a JSON number.
pub open spec fn id_json(id: u64) -> JsonValue {
    JsonValue::Number(JsonNumber::PosInt(id))
}

/// The number of the call that a response answers, where its id is the id
/// of a call at all.
pub open spec fn call_id(id: JsonValue) -> Option<u64> {
    match id {
        JsonValue::Number(JsonNumber::PosInt(n)) => Some(n),
        _ => None,
    }
}

/// The waiting call that a response with this id belongs to, if there is
/// one.
pub open spec fn waiting<Slot>(pending: Map<u64, Slot>, id: JsonValue) -> Option<u64> {
    match call_id(id) {
        Some(n) => if pending.contains_key(n) {
            Some(n)
        } else {
            None
        },
        None => None,
    }
}

/// Whether a call with the number `id` is among `entries`.
pub open spec fn listed<Slot>(entries: Seq<(u64, Slot)>, id: u64) -> bool {
    exists|i: int| 0 <= i < entries.len() && (#[trigger] entries[i]).0 == id
}

/// The place of call `id` in `entries`.
pub open spec fn place<Slot>(entries: Seq<(u64, Slot)>, id: u64) -> int {
    choose|i: int| 0 <= i < entries.len() && (#[trigger] entries[i]).0 == id
}

/// The table that a list of calls stands for: each number with its slot.
pub open spec fn table<Slot>(entries: Seq<(u64, Slot)>) -> Map<u64, Slot> {
    Map::new(|id: u64| listed(entries, id), |id: u64| entries[place(entries, id)].1)
}

/// The numbers in `entries` grow from each call to the next, and stay
/// below `bound`. So no number occurs twice.
pub open spec fn ascending<Slot>(entries: Seq<(u64, Slot)>, bound: u64) -> bool {
    &&& forall|i: int, j: int|
        0 <= i < j < entries.len() ==> (#[trigger] entries[i]).0 < (#[trigger] entries[j]).0
    &&& forall|i: int| 0 <= i < entries.len() ==> (#[trigger] entries[i]).0 < bound
}

proof fn lemma_place<Slot>(entries: Seq<(u64, Slot)>, bound: u64, i: int)
    requires
        ascending(entries, bound),
        0 <= i < entries.len(),
    ensures
        listed(entries, entries[i].0),
        place(entries, entries[i].0) == i,
        table(entries).contains_key(entries[i].0),
        table(entries)[entries[i].0] == entries[i].1,
{
    let k = place(entries, entries[i].0);
    assert(entries[k].0 == entries[i].0);
    if k < i {
        assert(entries[k].0 < entries[i].0);
    }
    if i < k {
        assert(entries[i].0 < entries[k].0);
    }
}

proof fn lemma_table_push<Slot>(entries: Seq<(u64, Slot)>, id: u64, slot: Slot)
    requires
        ascending(entries, id),
        id < u64::MAX,
    ensures
        ascending(entries.push((id, slot)), (id + 1) as u64),
        table(entries.push((id, slot))) == table(entries).insert(id, slot),
        !table(entries).contains_key(id),
{
    let longer = entries.push((id, slot));
    let bound = (id + 1) as u64;
    if listed(entries, id) {
        assert(entries[place(entries, id)].0 < id);
    }
    assert forall|i: int, j: int| 0 <= i < j < longer.len() implies (#[trigger] longer[i]).0 < (
    #[trigger] longer[j]).0 by {
        if j < entries.len() {
            assert(entries[i].0 < entries[j].0);
        } else {
            assert(entries[i].0 < id);
        }
    }
    assert forall|key: u64| #[trigger]
        table(longer).contains_key(key) <==> table(entries).insert(id, slot).contains_key(
            key,
        ) by {
        if listed(longer, key) {
            let i = place(longer, key);
            if i < entries.len() {
                assert(entries[i].0 == key);
            }
        }
        if listed(entries, key) {
            assert(longer[place(entries, key)].0 == key);
        }
        if key == id {
            assert(longer[entries.len() as int].0 == id);
        }
    }
    assert forall|key: u64| #[trigger] table(longer).contains_key(key) implies table(longer)[key]
        == table(entries).insert(id, slot)[key] by {
        let i = place(longer, key);
        lemma_place(longer, bound, i);
        if i < entries.len() {
            lemma_place(entries, id, i);
        }
    }
    assert(table(longer) =~= table(entries).insert(id, slot));
}

proof fn lemma_table_remove<Slot>(entries: Seq<(u64, Slot)>, bound: u64, i: int)
    requires
        ascending(entries, bound),
        0 <= i < entries.len(),
    ensures
        ascending(entries.remove(i), bound),
        table(entries.remove(i)) == table(entries).remove(entries[i].0),
{
    let shorter = entries.remove(i);
    let gone = entries[i].0;
    assert forall|a: int, b: int| 0 <= a < b < shorter.len() implies (#[trigger] shorter[a]).0 < (
    #[trigger] shorter[b]).0 by {
        let a0 = if a < i { a } else { a + 1 };
        let b0 = if b < i { b } else { b + 1 };
        assert(entries[a0].0 < entries[b0].0);
    }
    assert forall|a: int| 0 <= a < shorter.len() implies (#[trigger] shorter[a]).0 < bound by {
        let a0 = if a < i { a } else { a + 1 };
        assert(entries[a0].0 < bound);
    }
    assert forall|key: u64| #[trigger]
        table(shorter).contains_key(key) <==> table(entries).remove(gone).contains_key(key) by {
        if listed(shorter, key) {
            let a = place(shorter, key);
            let a0 = if a < i { a } else { a + 1 };
            assert(entries[a0].0 == key);
            lemma_place(entries, bound, a0);
            lemma_place(entries, bound, i);
        }
        if listed(entries, key) && key != gone {
            let a0 = place(entries, key);
            let a = if a0 < i { a0 } else { a0 - 1 };
            assert(shorter[a].0 == key);
        }
    }
    assert forall|key: u64| #[trigger] table(shorter).contains_key(key) implies table(shorter)[key]
        == table(entries).remove(gone)[key] by {
        let a = place(shorter, key);
        lemma_place(shorter, bound, a);
        let a0 = if a < i { a } else { a + 1 };
        lemma_place(entries, bound, a0);
    }
    assert(table(shorter) =~= table(entries).remove(gone));
}

proof fn lemma_not_listed<Slot>(entries: Seq<(u64, Slot)>, id: u64)
    requires
        forall|i: int| 0 <= i < entries.len() ==> (#[trigger] entries[i]).0 != id,
    ensures
        !table(entries).contains_key(id),
        table(entries).remove(id) == table(entries),
{
    assert(table(entries).remove(id) =~= table(entries));
}

/// The calling side of a connection: the calls that wait for a response.
///
/// Each call gets a number that no other call of this client has or had,
/// and leaves a `Slot` under it: whatever the caller needs to hand the
/// response on. The slot leaves the table when the response arrives or when
/// the caller gives up waiting, whichever comes first.
pub struct Client<Slot> {
    next_id: u64,
    pending: Vec<(u64, Slot)>,
}

impl<Slot> Client<Slot> {
    /// The calls that wait, each with its slot.
    pub closed spec fn pending(&self) -> Map<u64, Slot> {
        table(self.pending@)
    }

    /// The number that the next call gets.
    pub closed spec fn next_id(&self) -> u64 {
        self.next_id
    }

    /// What holds of every client that this module hands out: the calls are
    /// kept in the order in which they were made, so that no number is
    /// there twice, and every number was given out before.
    pub closed spec fn wf(&self) -> bool {
        ascending(self.pending@, self.next_id)
    }

    /// A client on which no call waits.
    pub fn new() -> (client: Client<Slot>)
        ensures
            client.wf(),
            client.pending() == Map::<u64, Slot>::empty(),
            client.next_id() == 0,
    {
        let client = Client { next_id: 0, pending: Vec::new() };
        assert(client.pending() =~= Map::<u64, Slot>::empty());
        client
    }

    /// The place of call `id` in the list.
    fn find(&self, id: u64) -> (found: Option<usize>)
        ensures
            match found {
                Some(i) => i < self.pending@.len() && self.pending@[i as int].0 == id,
                None => forall|i: int|
                    0 <= i < self.pending@.len() ==> (#[trigger] self.pending@[i]).0 != id,
            },
    {
        let mut i: usize = 0;
        while i < self.pending.len()
            invariant
                i <= self.pending@.len(),
                forall|j: int| 0 <= j < i ==> (#[trigger] self.pending@[j]).0 != id,
            decreases self.pending@.len() - i,
        {
            if self.pending[i].0 == id {
                return Some(i);
            }
            i += 1;
        }
        None
    }

    /// Takes call `id` out of the list, if it is there.
    fn take(&mut self, id: u64) -> (slot: Option<Slot>)
        requires
            old(self).wf(),
        ensures
            final(self).wf(),
            final(self).next_id == old(self).next_id,
            final(self).pending() == old(self).pending().remove(id),
            slot == if old(self).pending().contains_key(id) {
                Some(old(self).pending()[id])
            } else {
                None
            },
    {
        match self.find(id) {
            Some(i) => {
                proof {
                    lemma_place(self.pending@, self.next_id, i as int);
                    lemma_table_remove(self.pending@, self.next_id, i as int);
                }
                let entry = self.pending.remove(i);
                Some(entry.1)
            },
            None => {
                proof {
                    lemma_not_listed(self.pending@, id);
                }
                None
            },
        }
    }

    /// Starts a call.
    ///
    /// The call gets the next number, which no waiting call has, and `slot`
    /// is kept under it. The result is that number and the request to send,
    /// whose id it is. Once every number has been given out the call is
    /// refused: the slot comes back and nothing changes.
    pub fn call(&mut self, method: String, params: Option<Json>, slot: Slot) -> (sent: Result<
        (u64, Message),
        Slot,
    >)
        requires
            old(self).wf(),
        ensures
            final(self).wf(),
            old(self).next_id() < u64::MAX <==> sent is Ok,
            match sent {
                Ok((id, message)) => {
                    &&& id == old(self).next_id()
                    &&& !old(self).pending().contains_key(id)
                    &&& message@ == MessageValue::Request(
                        RequestValue {
                            method: method@,
                            params: option_view(params),
                            id: id_json(id),
                        },
                    )
                    &&& final(self).pending() == old(self).pending().insert(id, slot)
                    &&& final(self).next_id() == id + 1
                },
                Err(returned) => {
                    &&& returned == slot
                    &&& final(self).pending() == old(self).pending()
                    &&& final(self).next_id() == old(self).next_id()
                },
            },
    {
        if self.next_id == u64::MAX {
            return Err(slot);
        }
        let id = self.next_id;
        let request = Request {
            jsonrpc: Version,
            method,
            params,
            id: Json::Number(JsonNumber::PosInt(id)),
        };
        proof {
            lemma_table_push(self.pending@, id, slot);
        }
        self.pending.push((id, slot));
        self.next_id = id + 1;
        Ok((id, Message::Request(request)))
    }

    /// The notification to send for `method`. Nothing waits for an answer
    /// to it, so the table stays as it is.
    pub fn notify(&self, method: String, params: Option<Json>) -> (message: Message)
        ensures
            message@ == MessageValue::Notification(
                NotificationValue { method: method@, params: option_view(params) },
            ),
    {
        Message::notification(method, params)
    }

    /// Takes a response that arrived.
    ///
    /// Where a call waits under the id of the response, the call's slot
    /// leaves the table and comes back together with the response. Else
    /// nothing happens: a response that nobody waits for is dropped.
    pub fn answer(&mut self, response: Response) -> (delivery: Option<(Slot, Response)>)
        requires
            old(self).wf(),
        ensures
            final(self).wf(),
            final(self).next_id() == old(self).next_id(),
            match waiting(old(self).pending(), response@.id) {
                Some(id) => {
                    &&& delivery == Some((old(self).pending()[id], response))
                    &&& final(self).pending() == old(self).pending().remove(id)
                },
                None => delivery is None && final(self).pending() == old(self).pending(),
            },
    {
        let id = match &response.id {
            Json::Number(JsonNumber::PosInt(n)) => *n,
            _ => {
                return None;
            },
        };
        match self.take(id) {
            Some(slot) => Some((slot, response)),
            None => {
                assert(self.pending() =~= old(self).pending());
                None
            },
        }
    }

    /// Gives up waiting for the response to call `id`: its slot leaves the
    /// table and comes back, if it was still there.
    pub fn timeout(&mut self, id: u64) -> (slot: Option<Slot>)
        requires
            old(self).wf(),
        ensures
            final(self).wf(),
            final(self).next_id() == old(self).next_id(),
            final(self).pending() == old(self).pending().remove(id),
            slot == if old(self).pending().contains_key(id) {
                Some(old(self).pending()[id])
            } else {
                None
            },
    {
        self.take(id)
    }
}

/// What an endpoint does with a record that arrived.
#[derive(Debug, PartialEq)]
pub enum Inbound<Slot, R, N> {
    /// The record is the response to a call of this side: hand it to the
    /// slot that the call left.
    Answer { slot: Slot, response: Response },
    /// Everything else: the work that the dispatch engine leaves.
    Work(Work<R, N>),
}

/// One side of a connection: a server for what the other side asks, and a
/// client for what this side asks.
pub struct Endpoint<S, Slot> {
    pub server: S,
    pub client: Client<Slot>,
}

/// Makes the endpoint of a new connection. No call waits on it yet.
pub fn endpoint<S: Server, Slot>(server: S) -> (made: Endpoint<S, Slot>)
    ensures
        made.server == server,
        made.client.wf(),
        made.client.pending() == Map::<u64, Slot>::empty(),
        made.client.next_id() == 0,
{
    Endpoint { server, client: Client::new() }
}

impl<S: Server, Slot> Endpoint<S, Slot> {
    /// Takes one record that arrived.
    ///
    /// A response goes to the client: it is an answer where a call waits
    /// for it, and is dropped where none does. Every other record goes to
    /// the dispatch engine.
    pub fn receive(&mut self, record: Parsed) -> (inbound: Inbound<
        Slot,
        S::RPCCallResult,
        S::NotificationResult,
    >)
        requires
            old(self).client.wf(),
        ensures
            final(self).client.wf(),
            final(self).server == old(self).server,
            final(self).client.next_id() == old(self).client.next_id(),
            match record {
                Ok(Message::Response(response)) => match waiting(
                    old(self).client.pending(),
                    response@.id,
                ) {
                    Some(id) => {
                        &&& inbound == (Inbound::<
                            Slot,
                            S::RPCCallResult,
                            S::NotificationResult,
                        >::Answer { slot: old(self).client.pending()[id], response })
                        &&& final(self).client.pending() == old(self).client.pending().remove(id)
                    },
                    None => {
                        &&& inbound == Inbound::<
                            Slot,
                            S::RPCCallResult,
                            S::NotificationResult,
                        >::Work(Work::Done(None))
                        &&& final(self).client.pending() == old(self).client.pending()
                    },
                },
                _ => {
                    &&& inbound matches Inbound::Work(work) && planned_for(
                        &old(self).server,
                        record,
                        work,
                    )
                    &&& final(self).client.pending() == old(self).client.pending()
                },
            },
    {
        match record {
            Ok(Message::Response(response)) => match self.client.answer(response) {
                Some((slot, response)) => Inbound::Answer { slot, response },
                None => Inbound::Work(Work::Done(None)),
            },
            other => Inbound::Work(do_msg(&self.server, other)),
        }
    }
}

/// A call that was given up leaves no trace: once its slot has left the
/// table, a response with its id finds no call that waits, and is dropped.
pub proof fn lemma_late_response_is_dropped<Slot>(
    pending: Map<u64, Slot>,
    id: u64,
    slot: Slot,
    response: JsonValue,
)
    requires
        !pending.contains_key(id),
        call_id(response) == Some(id),
    ensures
        pending.insert(id, slot).remove(id) == pending,
        waiting(pending.insert(id, slot).remove(id), response) is None,
{
    assert(pending.insert(id, slot).remove(id) =~= pending);
}

/// A response is handed to the call that its id names, and to no other.
pub proof fn lemma_response_finds_its_call<Slot>(pending: Map<u64, Slot>, id: u64)
    requires
        pending.contains_key(id),
    ensures
        waiting(pending, id_json(id)) == Some(id),
        call_id(id_json(id)) == Some(id),
{
}

} // verus!
