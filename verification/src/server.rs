//! Decisions of the pull-based exporter, which runs a web server.
//!
//! The server binds to an address, and after that accepts connections until the shutdown signal
//! comes. Each connection is served in the background until it ends by itself, be it before or after
//! that signal. [`Server`] is what the server remembers meanwhile; binding, accepting and serving
//! are left to its caller.
use vstd::prelude::*;

verus! {

/// State of a web server.
#[derive(Clone, Copy, Debug, PartialEq, Eq, Structural)]
pub enum Server {
    /// The server is about to bind to its address.
    Binding,
    /// The server waits for a connection, or for the shutdown signal.
    Accepting,
    /// The server has ended. No more connections are accepted; those that were go on being served.
    Ended,
}

/// What happens to a web server.
#[derive(Clone, Copy, Debug, PartialEq, Eq, Structural)]
pub enum ServerEvent {
    /// The server has been bound to its address.
    Bound,
    /// The server could not be bound to its address.
    BindFailed,
    /// A new connection has been accepted.
    Accepted,
    /// The shutdown signal has been received.
    ShutdownReceived,
    /// A request has come in on an open connection.
    Requested,
    /// An open connection has been closed in an orderly way.
    ConnectionClosed,
    /// An open connection has ended with an error.
    ConnectionFailed,
}

/// What a web server does next.
#[derive(Clone, Copy, Debug, PartialEq, Eq, Structural)]
pub enum ServerAction {
    /// Wait for a connection or for the shutdown signal.
    Wait,
    /// Serve the new connection in the background, and wait for another one or for the shutdown
    /// signal.
    ServeAndWait,
    /// End with success.
    Finish,
    /// End with the error with which binding failed.
    ReturnError,
    /// Answer the request with the rendered metrics.
    Respond,
    /// Log the error with which the connection has ended.
    LogConnectionError,
    /// Do nothing.
    Ignore,
}

impl ServerEvent {
    /// Whether the event is about a connection that has been accepted before.
    pub open spec fn is_on_connection(self) -> bool {
        self is Requested || self.ends_connection()
    }

    /// Whether a connection ends with the event.
    pub open spec fn ends_connection(self) -> bool {
        self is ConnectionClosed || self is ConnectionFailed
    }
}

impl Server {
    /// Whether an event can happen in this state.
    pub open spec fn expects(self, event: ServerEvent) -> bool {
        match self {
            Server::Binding => event is Bound || event is BindFailed,
            Server::Accepting => event is Accepted || event is ShutdownReceived
                || event.is_on_connection(),
            Server::Ended => event.is_on_connection(),
        }
    }

    /// The state after an event.
    pub open spec fn after(self, event: ServerEvent) -> Server {
        match event {
            ServerEvent::Bound => Server::Accepting,
            ServerEvent::BindFailed => Server::Ended,
            ServerEvent::Accepted => Server::Accepting,
            ServerEvent::ShutdownReceived => Server::Ended,
            ServerEvent::Requested => self,
            ServerEvent::ConnectionClosed => self,
            ServerEvent::ConnectionFailed => self,
        }
    }

    /// Creates the state of a server that is about to start.
    pub fn new() -> (server: Self)
        ensures
            server == Server::Binding,
    {
        Server::Binding
    }

    /// Takes note of an event and tells what to do.
    pub fn on_event(&mut self, event: ServerEvent) -> (action: ServerAction)
        requires
            old(self).expects(event),
        ensures
            *final(self) == old(self).after(event),
            event.is_on_connection() ==> *final(self) == *old(self),
            action == action_on(event),
    {
        match event {
            ServerEvent::Bound => {
                *self = Server::Accepting;
                ServerAction::Wait
            },
            ServerEvent::BindFailed => {
                *self = Server::Ended;
                ServerAction::ReturnError
            },
            ServerEvent::Accepted => ServerAction::ServeAndWait,
            ServerEvent::ShutdownReceived => {
                *self = Server::Ended;
                ServerAction::Finish
            },
            ServerEvent::Requested => ServerAction::Respond,
            ServerEvent::ConnectionClosed => ServerAction::Ignore,
            ServerEvent::ConnectionFailed => ServerAction::LogConnectionError,
        }
    }
}

/// What a server does when an event happens.
pub open spec fn action_on(event: ServerEvent) -> ServerAction {
    match event {
        ServerEvent::Bound => ServerAction::Wait,
        ServerEvent::BindFailed => ServerAction::ReturnError,
        ServerEvent::Accepted => ServerAction::ServeAndWait,
        ServerEvent::ShutdownReceived => ServerAction::Finish,
        ServerEvent::Requested => ServerAction::Respond,
        ServerEvent::ConnectionClosed => ServerAction::Ignore,
        ServerEvent::ConnectionFailed => ServerAction::LogConnectionError,
    }
}

/// A server that is about to bind is bound or not. After that connections are accepted until
/// the shutdown signal comes, and things happen to connections even later.
pub proof fn lemma_expected_events(event: ServerEvent)
    ensures
        Server::Binding.expects(event) <==> event is Bound || event is BindFailed,
        Server::Accepting.expects(event) <==> !(event is Bound || event is BindFailed),
        Server::Ended.expects(event) <==> event is Requested || event is ConnectionClosed
            || event is ConnectionFailed,
{
}

/// What becomes of a server on each event, and what it does.
pub proof fn lemma_server_step(server: Server, event: ServerEvent)
    requires
        server.expects(event),
    ensures
        event is Bound || event is BindFailed <==> server is Binding,
        event is Accepted || event is ShutdownReceived ==> server is Accepting,
        event is Requested || event is ConnectionClosed || event is ConnectionFailed ==> (
        server.after(event) == server),
        event is Bound || event is Accepted ==> server.after(event) is Accepting,
        event is BindFailed || event is ShutdownReceived ==> server.after(event) is Ended,
        action_on(event) is Wait <==> event is Bound,
        action_on(event) is ReturnError <==> event is BindFailed,
        action_on(event) is ServeAndWait <==> event is Accepted,
        action_on(event) is Finish <==> event is ShutdownReceived,
        action_on(event) is Respond <==> event is Requested,
        action_on(event) is Ignore <==> event is ConnectionClosed,
        action_on(event) is LogConnectionError <==> event is ConnectionFailed,
{
}

/// An event together with the connection that it is about. For an event that is not about
/// a connection, the latter is of no importance.
pub struct Occurrence {
    pub event: ServerEvent,
    pub connection: nat,
}

/// The state after a number of events.
pub open spec fn state_after(server: Server, events: Seq<Occurrence>) -> Server
    decreases events.len(),
{
    if events.len() == 0 {
        server
    } else {
        state_after(server, events.drop_last()).after(events.last().event)
    }
}

/// Whether a connection is open after a number of events: it has been accepted, and has not ended
/// since.
pub open spec fn is_open(events: Seq<Occurrence>, connection: nat) -> bool
    decreases events.len(),
{
    if events.len() == 0 {
        false
    } else {
        let last = events.last();
        if last.connection == connection && last.event is Accepted {
            true
        } else if last.connection == connection && last.event.ends_connection() {
            false
        } else {
            is_open(events.drop_last(), connection)
        }
    }
}

/// Whether `next` can happen to a server after `events` have: the server expects it, it is about
/// an open connection if it is about one that has been accepted, and a connection that is being
/// accepted is not one of the open ones.
pub open spec fn can_happen(server: Server, events: Seq<Occurrence>, next: Occurrence) -> bool {
    &&& state_after(server, events).expects(next.event)
    &&& next.event.is_on_connection() ==> is_open(events, next.connection)
    &&& next.event is Accepted ==> !is_open(events, next.connection)
}

/// Whether each of the events can happen after those in front of it.
pub open spec fn is_history(server: Server, events: Seq<Occurrence>) -> bool {
    forall|i: int|
        0 <= i < events.len() ==> can_happen(server, #[trigger] events.take(i), events[i])
}

/// No connection is open as long as none has been accepted.
proof fn lemma_nothing_open(events: Seq<Occurrence>, connection: nat)
    requires
        forall|i: int| 0 <= i < events.len() ==> (#[trigger] events[i]).event !is Accepted,
    ensures
        !is_open(events, connection),
    decreases events.len(),
{
    if events.len() > 0 {
        let front = events.drop_last();
        assert(events[events.len() - 1].event !is Accepted);
        assert forall|i: int| 0 <= i < front.len() implies (
        #[trigger] front[i]).event !is Accepted by {
            assert(front[i] == events[i]);
        }
        lemma_nothing_open(front, connection);
    }
}

/// The state of a server along a history, up to and including the event at `i`.
proof fn lemma_state(events: Seq<Occurrence>, i: int)
    requires
        is_history(Server::Binding, events),
        0 <= i < events.len(),
    ensures
        i == 0 <==> (events[i].event is Bound || events[i].event is BindFailed),
        events[0].event is BindFailed ==> i == 0,
        events[0].event is Bound || events[0].event is BindFailed,
        state_after(Server::Binding, events.take(i + 1)) is Ended <==> exists|j: int|
            0 <= j <= i && ((#[trigger] events[j]).event is ShutdownReceived
                || events[j].event is BindFailed),
        state_after(Server::Binding, events.take(i + 1)) !is Binding,
    decreases i,
{
    let before = events.take(i);
    let now = events.take(i + 1);
    assert(now.drop_last() =~= before);
    assert(now.last() == events[i]);
    assert(can_happen(Server::Binding, events.take(i), events[i]));
    if i > 0 {
        lemma_state(events, i - 1);
        if events[0].event is BindFailed {
            // Nothing can happen to a server that was not bound.
            assert(before.len() == 1 && before[0] == events[0]);
            lemma_nothing_open(before, events[i].connection);
            assert(state_after(Server::Binding, before) is Ended);
        }
        let ended_before = state_after(Server::Binding, before) is Ended;
        if ended_before {
            let j = choose|j: int|
                0 <= j <= i - 1 && ((#[trigger] events[j]).event is ShutdownReceived
                    || events[j].event is BindFailed);
            assert(0 <= j <= i);
        }
    } else {
        assert(before.len() == 0);
    }
}

/// A server that is bound serves every connection that is accepted, and ends with success once
/// the shutdown signal has been received, and only on this signal. A server that cannot be bound
/// ends with an error, and only such a server does. Requests are answered, and of a connection
/// that has ended at most the error is logged; neither changes the state of the server.
pub proof fn lemma_server_history(events: Seq<Occurrence>, i: int)
    requires
        is_history(Server::Binding, events),
        0 <= i < events.len(),
    ensures
        i == 0 <==> (events[i].event is Bound || events[i].event is BindFailed),
        i > 0 ==> events[0].event is Bound,
        action_on(events[i].event) is ServeAndWait <==> events[i].event is Accepted,
        action_on(events[i].event) is Finish <==> events[i].event is ShutdownReceived,
        action_on(events[i].event) is ReturnError <==> events[i].event is BindFailed,
        action_on(events[i].event) is Respond <==> events[i].event is Requested,
        action_on(events[i].event) is LogConnectionError <==> events[i].event is ConnectionFailed,
        action_on(events[i].event) is Ignore <==> events[i].event is ConnectionClosed,
        events[i].event.is_on_connection() ==> state_after(Server::Binding, events.take(i + 1))
            == state_after(Server::Binding, events.take(i)),
        state_after(Server::Binding, events.take(i + 1)) is Ended <==> exists|j: int|
            0 <= j <= i && (action_on((#[trigger] events[j]).event) is Finish || action_on(
                events[j].event,
            ) is ReturnError),
{
    lemma_state(events, i);
    let now = events.take(i + 1);
    assert(now.drop_last() =~= events.take(i));
    assert(now.last() == events[i]);
    if state_after(Server::Binding, now) is Ended {
        let j = choose|j: int|
            0 <= j <= i && ((#[trigger] events[j]).event is ShutdownReceived
                || events[j].event is BindFailed);
        assert(action_on(events[j].event) is Finish || action_on(events[j].event) is ReturnError);
    } else {
        assert forall|j: int| 0 <= j <= i implies !(action_on((#[trigger] events[j]).event) is Finish
            || action_on(events[j].event) is ReturnError) by {
            assert(!(events[j].event is ShutdownReceived || events[j].event is BindFailed));
        }
    }
}

/// Once the shutdown signal has been received, no more connections are accepted, and the signal is
/// not waited for again: all that happens is about connections that were accepted before.
pub proof fn lemma_after_shutdown(events: Seq<Occurrence>, shutdown: int, i: int)
    requires
        is_history(Server::Binding, events),
        0 <= shutdown < i < events.len(),
        events[shutdown].event is ShutdownReceived,
    ensures
        events[i].event.is_on_connection(),
        exists|accepted: int|
            0 <= accepted < shutdown && (#[trigger] events[accepted]).event is Accepted
                && events[accepted].connection == events[i].connection,
        state_after(Server::Binding, events.take(i + 1)) is Ended,
    decreases i,
{
    lemma_state(events, i);
    lemma_state(events, i - 1);
    assert(events[shutdown].event is ShutdownReceived);
    let before = events.take(i);
    assert(can_happen(Server::Binding, events.take(i), events[i]));
    lemma_accepted_before(before, events[i].connection);
    let accepted = choose|j: int|
        0 <= j < before.len() && (#[trigger] before[j]).event is Accepted && before[j].connection
            == events[i].connection;
    assert(before[accepted] == events[accepted]);
    if accepted > shutdown {
        lemma_after_shutdown(events, shutdown, accepted);
    }
}

/// A connection that is open has been accepted.
proof fn lemma_accepted_before(events: Seq<Occurrence>, connection: nat)
    requires
        is_open(events, connection),
    ensures
        exists|j: int|
            0 <= j < events.len() && (#[trigger] events[j]).event is Accepted
                && events[j].connection == connection,
    decreases events.len(),
{
    let last = events.last();
    assert(events[events.len() - 1] == last);
    if !(last.connection == connection && last.event is Accepted) {
        let front = events.drop_last();
        lemma_accepted_before(front, connection);
        let j = choose|j: int|
            0 <= j < front.len() && (#[trigger] front[j]).event is Accepted && front[j].connection
                == connection;
        assert(events[j] == front[j]);
    }
}

/// A connection stays open from the time when it is accepted until it ends by itself.
proof fn lemma_stays_open(events: Seq<Occurrence>, accepted: int, now: int)
    requires
        0 <= accepted < now <= events.len(),
        events[accepted].event is Accepted,
        forall|i: int|
            accepted < i < now && (#[trigger] events[i]).connection == events[accepted].connection
                ==> !events[i].event.ends_connection(),
    ensures
        is_open(events.take(now), events[accepted].connection),
    decreases now,
{
    let taken = events.take(now);
    assert(taken.last() == events[now - 1]);
    assert(taken.drop_last() =~= events.take(now - 1));
    if accepted < now - 1 {
        lemma_stays_open(events, accepted, now - 1);
    }
}

/// A connection that has been accepted is served until it ends by itself, whatever else happens
/// to the server, the shutdown signal included: a request on it can come in at any time, and it
/// is answered with the rendered metrics.
pub proof fn lemma_connection_is_served(events: Seq<Occurrence>, accepted: int, now: int)
    requires
        is_history(Server::Binding, events),
        0 <= accepted < now <= events.len(),
        events[accepted].event is Accepted,
        forall|i: int|
            accepted < i < now && (#[trigger] events[i]).connection == events[accepted].connection
                ==> !events[i].event.ends_connection(),
    ensures
        ({
            let before = events.take(now);
            let request = Occurrence {
                event: ServerEvent::Requested,
                connection: events[accepted].connection,
            };
            &&& is_open(before, request.connection)
            &&& is_history(Server::Binding, before.push(request))
            &&& action_on(request.event) is Respond
            &&& is_open(before.push(request), request.connection)
            &&& state_after(Server::Binding, before.push(request)) == state_after(
                Server::Binding,
                before,
            )
        }),
{
    let before = events.take(now);
    let request = Occurrence {
        event: ServerEvent::Requested,
        connection: events[accepted].connection,
    };
    let after = before.push(request);
    lemma_stays_open(events, accepted, now);
    lemma_state(events, now - 1);
    lemma_state(events, accepted);
    assert(after.drop_last() =~= before);
    assert forall|i: int| 0 <= i < after.len() implies can_happen(
        Server::Binding,
        #[trigger] after.take(i),
        after[i],
    ) by {
        assert(after.take(i) =~= events.take(i));
        if i < now {
            assert(can_happen(Server::Binding, events.take(i), events[i]));
        }
    }
}

/// The shutdown signal ends no connection.
pub proof fn lemma_shutdown_keeps_connections(
    events: Seq<Occurrence>,
    shutdown: Occurrence,
    connection: nat,
)
    requires
        shutdown.event is ShutdownReceived,
    ensures
        is_open(events.push(shutdown), connection) == is_open(events, connection),
{
    assert(events.push(shutdown).drop_last() =~= events);
}

} // verus!
