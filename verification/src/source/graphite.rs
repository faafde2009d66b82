//! The line-protocol source over TCP: its configuration, and the decisions
//! of its three loops. The loops themselves (resolve and bind, accept,
//! read) belong to the program that owns the sockets; it performs each
//! action that these functions name and reports back what happened.
use std::sync::Arc;
use vstd::prelude::*;
use crate::metric::{TagMap, Tags, Telemetry, TelemetryView, events_view};
use crate::number::{is_decimal, parsed_i64};
use crate::protocols::graphite::{lemma_malformed_line_fails, line_event, parse_chars};
use crate::text::{chars_of, tokens};
use crate::util::{Channel, ClosedPolicy, EndpointView};

verus! {

/// The counters by which the source reports on itself.
#[derive(Debug, Clone, Copy, PartialEq, Eq, Structural)]
pub enum Counter {
    /// One more connection was accepted.
    NewPeer,
    /// One more line was parsed and forwarded.
    Packet,
    /// One more line was malformed.
    BadPacket,
}

impl Counter {
    /// The name under which the counter is reported.
    pub fn name(&self) -> (s: &'static str)
        ensures
            *self == Counter::NewPeer ==> s@ == "source.new_peer"@,
            *self == Counter::Packet ==> s@ == "source.packet"@,
            *self == Counter::BadPacket ==> s@ == "source.bad_packet"@,
    {
        match self {
            Counter::NewPeer => "source.new_peer",
            Counter::Packet => "source.packet",
            Counter::BadPacket => "source.bad_packet",
        }
    }
}

/// What the source is made from.
#[derive(Debug)]
pub struct GraphiteConfig {
    /// The host whose addresses the source listens on.
    pub host: String,
    /// The TCP port to listen on.
    pub port: u16,
    /// The tags that every record of this source carries unless its line
    /// sets them otherwise.
    pub tags: TagMap,
    /// The names of the channels downstream.
    pub forwards: Vec<String>,
    /// Where in the configuration this source stands.
    pub config_path: Option<String>,
}

impl Default for GraphiteConfig {
    fn default() -> (c: GraphiteConfig)
        ensures
            c.host@ == "localhost"@,
            c.port == 2003,
            c.tags@ == Tags::empty(),
            c.forwards@ == Seq::<String>::empty(),
            c.config_path is Some,
            c.config_path->0@ == "sources.graphite"@,
    {
        GraphiteConfig {
            host: "localhost".to_owned(),
            port: 2003,
            tags: TagMap::new(),
            forwards: Vec::new(),
            config_path: Some("sources.graphite".to_owned()),
        }
    }
}

impl Clone for GraphiteConfig {
    fn clone(&self) -> (c: GraphiteConfig)
        ensures
            c.host@ == self.host@,
            c.port == self.port,
            c.tags@ == self.tags@,
            c.forwards@ == self.forwards@,
            c.config_path == self.config_path,
    {
        let mut forwards: Vec<String> = Vec::new();
        let mut i: usize = 0;
        while i < self.forwards.len()
            invariant
                i <= self.forwards.len(),
                forwards@ == self.forwards@.take(i as int),
            decreases self.forwards.len() - i,
        {
            forwards.push(self.forwards[i].clone());
            i += 1;
        }
        assert(self.forwards@.take(i as int) == self.forwards@);
        GraphiteConfig {
            host: self.host.clone(),
            port: self.port,
            tags: self.tags.clone(),
            forwards,
            config_path: match &self.config_path {
                Some(path) => Some(path.clone()),
                None => None,
            },
        }
    }
}

/// The source as mathematical values.
pub struct GraphiteView {
    pub host: Seq<char>,
    pub port: u16,
    pub tags: Tags,
    pub chans: Seq<EndpointView>,
    pub policy: ClosedPolicy,
}

/// The source: where it listens, the tags it gives, and the channel set
/// that takes its events.
pub struct Graphite {
    chans: Channel,
    host: String,
    port: u16,
    tags: Arc<TagMap>,
}

impl View for Graphite {
    type V = GraphiteView;

    closed spec fn view(&self) -> GraphiteView {
        GraphiteView {
            host: self.host@,
            port: self.port,
            tags: (*self.tags)@,
            chans: self.chans@,
            policy: self.chans.policy(),
        }
    }
}

impl Graphite {
    /// The source that `config` describes, in front of `chans`.
    pub fn new(chans: Channel, config: GraphiteConfig) -> (g: Graphite)
        ensures
            g@ == (GraphiteView {
                host: config.host@,
                port: config.port,
                tags: config.tags@,
                chans: chans@,
                policy: chans.policy(),
            }),
    {
        Graphite { chans: chans, host: config.host, port: config.port, tags: Arc::new(config.tags) }
    }

    /// The host whose addresses the source listens on.
    pub fn host(&self) -> (h: &str)
        ensures
            h@ == self@.host,
    {
        self.host.as_str()
    }

    /// The TCP port that the source listens on.
    pub fn port(&self) -> (p: u16)
        ensures
            p == self@.port,
    {
        self.port
    }

    /// The tags of the source, shared and never changed.
    pub fn tags(&self) -> (t: &Arc<TagMap>)
        ensures
            (**t)@ == self@.tags,
    {
        &self.tags
    }

    /// The channel set of the source.
    pub fn chans(&self) -> (c: &Channel)
        ensures
            c@ == self@.chans,
            c.policy() == self@.policy,
    {
        &self.chans
    }

    /// Takes the source apart into channel set, host, port and tags.
    pub fn into_parts(self) -> (parts: (Channel, String, u16, Arc<TagMap>))
        ensures
            parts.0@ == self@.chans,
            parts.0.policy() == self@.policy,
            parts.1@ == self@.host,
            parts.2 == self@.port,
            (*parts.3)@ == self@.tags,
    {
        (self.chans, self.host, self.port, self.tags)
    }
}

/// What the reader of a connection does next.
#[derive(Debug)]
pub enum StreamAction {
    /// The line was well-formed: count a packet, send these events on in
    /// this order, and read on.
    Forward(Vec<Telemetry>),
    /// The line was malformed: count a bad packet, log the line, and read
    /// on.
    Reject,
    /// The stream is over: leave the loop and let the connection go.
    Close,
}

/// A `StreamAction` as mathematical values.
pub enum StreamActionView {
    Forward(Seq<TelemetryView>),
    Reject,
    Close,
}

impl View for StreamAction {
    type V = StreamActionView;

    open spec fn view(&self) -> StreamActionView {
        match self {
            StreamAction::Forward(events) => StreamActionView::Forward(events_view(events@)),
            StreamAction::Reject => StreamActionView::Reject,
            StreamAction::Close => StreamActionView::Close,
        }
    }
}

impl StreamAction {
    /// The counter that goes up with this action, if one does.
    pub fn counter(&self) -> (c: Option<Counter>)
        ensures
            self@ is Forward ==> c == Some(Counter::Packet),
            self@ is Reject ==> c == Some(Counter::BadPacket),
            self@ is Close ==> c is None,
    {
        match self {
            StreamAction::Forward(_) => Some(Counter::Packet),
            StreamAction::Reject => Some(Counter::BadPacket),
            StreamAction::Close => None,
        }
    }
}

/// A line that its sender has finished: it ends in a newline.
pub open spec fn is_complete_line(line: Seq<char>) -> bool {
    line.len() > 0 && line.last() == '\n'
}

/// The action that follows one read. `read` is `None` where the read
/// failed, else the number of bytes that it brought; `line` is what it
/// brought. A failed read, the end of the stream, and a last fragment
/// without newline all close; a complete line is parsed over `template`.
pub open spec fn stream_step(template: TelemetryView, read: Option<usize>, line: Seq<char>) -> StreamActionView {
    match read {
        Some(n) if n > 0 && is_complete_line(line) => match line_event(line, template) {
            Some(event) => StreamActionView::Forward(seq![event]),
            None => StreamActionView::Reject,
        },
        _ => StreamActionView::Close,
    }
}

/// A malformed line costs the connection nothing: it is rejected, the
/// stream stays open, and a well-formed line that follows is forwarded as
/// if the malformed one had never come.
pub proof fn lemma_malformed_line_keeps_connection(
    template: TelemetryView,
    bad_read: usize,
    bad: Seq<char>,
    good_read: usize,
    good: Seq<char>,
)
    requires
        bad_read > 0,
        is_complete_line(bad),
        tokens(bad).len() < 3 || !is_decimal(tokens(bad)[1]) || parsed_i64(tokens(bad)[2])
            is None,
        good_read > 0,
        is_complete_line(good),
        line_event(good, template) is Some,
    ensures
        stream_step(template, Some(bad_read), bad) == StreamActionView::Reject,
        stream_step(template, Some(good_read), good) == StreamActionView::Forward(
            seq![line_event(good, template)->0],
        ),
{
    lemma_malformed_line_fails(bad, template);
}

/// What one connection keeps for its lifetime: the template that every
/// line of the connection is parsed over, made once from the tags of the
/// source.
#[derive(Debug)]
pub struct ConnectionHandler {
    template: Telemetry,
}

impl ConnectionHandler {
    /// The template of the connection.
    pub closed spec fn template(&self) -> TelemetryView {
        self.template@
    }

    /// The handler of a new connection of a source with the tags `tags`.
    pub fn new(tags: &TagMap) -> (h: ConnectionHandler)
        ensures
            h.template() == (TelemetryView {
                name: None,
                value: None,
                timestamp: None,
                tags: tags@,
            }),
    {
        let template = Telemetry::default().overlay_tags_from_map(tags);
        assert(template@.tags =~= tags@);
        ConnectionHandler { template }
    }

    /// Decides what follows one read of the connection. `read` is what the
    /// read returned, `None` for a failure; `line` is what it brought into
    /// a buffer that was empty before. The handler itself never changes:
    /// no line, malformed or not, bears on the next.
    pub fn on_read(&self, read: Option<usize>, line: &str) -> (action: StreamAction)
        ensures
            action@ == stream_step(self.template(), read, line@),
    {
        match read {
            Some(n) => {
                if n == 0 {
                    return StreamAction::Close;
                }
                let chars = chars_of(line);
                if chars.len() == 0 || chars[chars.len() - 1] != '\n' {
                    return StreamAction::Close;
                }
                let mut events: Vec<Telemetry> = Vec::new();
                if parse_chars(&chars, &mut events, &self.template) {
                    assert(events_view(events@) =~= seq![line_event(line@, self.template())->0]);
                    StreamAction::Forward(events)
                } else {
                    StreamAction::Reject
                }
            },
            None => StreamAction::Close,
        }
    }
}

/// What the acceptor does about one incoming connection.
#[derive(Debug)]
pub enum AcceptAction {
    /// The connection stands: count a new peer and let this handler serve
    /// it, apart from the accept loop.
    Serve(ConnectionHandler),
    /// The attempt failed: pass it over and accept on.
    Skip,
}

impl AcceptAction {
    /// The counter that goes up with this action, if one does.
    pub fn counter(&self) -> (c: Option<Counter>)
        ensures
            self is Serve ==> c == Some(Counter::NewPeer),
            self is Skip ==> c is None,
    {
        match self {
            AcceptAction::Serve(_) => Some(Counter::NewPeer),
            AcceptAction::Skip => None,
        }
    }
}

/// Decides what follows one accept on a listener of a source with the
/// tags `tags`; `accepted` says whether the accept brought a connection.
pub fn on_accept(tags: &TagMap, accepted: bool) -> (action: AcceptAction)
    ensures
        accepted ==> action is Serve && action->Serve_0.template() == (TelemetryView {
            name: None,
            value: None,
            timestamp: None,
            tags: tags@,
        }),
        !accepted ==> action is Skip,
{
    if accepted {
        AcceptAction::Serve(ConnectionHandler::new(tags))
    } else {
        AcceptAction::Skip
    }
}

/// Why a run of the source ended for good.
#[derive(Debug, Clone, Copy, PartialEq, Eq, Structural)]
pub enum Fatal {
    /// An address was resolved and could not be bound.
    Bind,
    /// An acceptor ended in failure.
    Acceptor,
}

impl Fatal {
    /// The message with which the run ends.
    pub fn message(&self) -> (s: &'static str)
        ensures
            *self == Fatal::Bind ==> s@ == "Unable to bind to TCP socket"@,
            *self == Fatal::Acceptor ==> s@ == "Uh oh, child thread panicked!"@,
    {
        match self {
            Fatal::Bind => "Unable to bind to TCP socket",
            Fatal::Acceptor => "Uh oh, child thread panicked!",
        }
    }
}

/// Where a run of the source stands.
#[derive(Debug, Clone, Copy, PartialEq, Eq, Structural)]
pub enum RunState {
    /// `next` of `total` addresses have a listener and an acceptor.
    Binding { total: usize, next: usize },
    /// Every address has its acceptor; `next` of them have ended.
    Joining { total: usize, next: usize },
    /// Nothing is left to wait for.
    Finished,
    /// The run has failed.
    Aborted(Fatal),
}

/// What the run does next.
#[derive(Debug, Clone, Copy, PartialEq, Eq, Structural)]
pub enum RunAction {
    /// Bind the address at this index and start its acceptor.
    Bind(usize),
    /// Wait for the acceptor at this index to end.
    Join(usize),
    /// Return: the run is over.
    Return,
    /// End the run in failure.
    Abort(Fatal),
}

/// The state in which a run starts. `resolved` is the number of addresses
/// that the lookup gave, or `None` where the lookup failed: that is no
/// failure of the run, which then has nothing to do.
pub open spec fn started(resolved: Option<usize>) -> RunState {
    match resolved {
        Some(total) if total > 0 => RunState::Binding { total, next: 0 },
        _ => RunState::Finished,
    }
}

/// The action that a state calls for.
pub open spec fn action_of(state: RunState) -> RunAction {
    match state {
        RunState::Binding { total, next } => RunAction::Bind(next),
        RunState::Joining { total, next } => RunAction::Join(next),
        RunState::Finished => RunAction::Return,
        RunState::Aborted(fatal) => RunAction::Abort(fatal),
    }
}

/// The state after the action of `state` was tried and `succeeded` says
/// how it went. Binding goes through the addresses in order, then joining
/// through the acceptors; any failure aborts; the two final states stay.
pub open spec fn advanced(state: RunState, succeeded: bool) -> RunState {
    match state {
        RunState::Binding { total, next } => if !succeeded {
            RunState::Aborted(Fatal::Bind)
        } else if next + 1 < total {
            RunState::Binding { total, next: (next + 1) as usize }
        } else {
            RunState::Joining { total, next: 0 }
        },
        RunState::Joining { total, next } => if !succeeded {
            RunState::Aborted(Fatal::Acceptor)
        } else if next + 1 < total {
            RunState::Joining { total, next: (next + 1) as usize }
        } else {
            RunState::Finished
        },
        RunState::Finished => RunState::Finished,
        RunState::Aborted(fatal) => RunState::Aborted(fatal),
    }
}

impl RunState {
    /// Starts a run from the outcome of the lookup.
    pub fn start(resolved: Option<usize>) -> (state: RunState)
        ensures
            state == started(resolved),
    {
        match resolved {
            Some(total) => if total > 0 {
                RunState::Binding { total, next: 0 }
            } else {
                RunState::Finished
            },
            None => RunState::Finished,
        }
    }

    /// The action to perform in this state.
    pub fn action(&self) -> (action: RunAction)
        ensures
            action == action_of(*self),
    {
        match *self {
            RunState::Binding { total, next } => RunAction::Bind(next),
            RunState::Joining { total, next } => RunAction::Join(next),
            RunState::Finished => RunAction::Return,
            RunState::Aborted(fatal) => RunAction::Abort(fatal),
        }
    }

    /// Takes in how the action of this state went.
    pub fn advance(self, succeeded: bool) -> (state: RunState)
        ensures
            state == advanced(self, succeeded),
    {
        match self {
            RunState::Binding { total, next } => if !succeeded {
                RunState::Aborted(Fatal::Bind)
            } else if next < total && next + 1 < total {
                RunState::Binding { total, next: next + 1 }
            } else {
                RunState::Joining { total, next: 0 }
            },
            RunState::Joining { total, next } => if !succeeded {
                RunState::Aborted(Fatal::Acceptor)
            } else if next < total && next + 1 < total {
                RunState::Joining { total, next: next + 1 }
            } else {
                RunState::Finished
            },
            RunState::Finished => RunState::Finished,
            RunState::Aborted(fatal) => RunState::Aborted(fatal),
        }
    }
}

/// The state after `k` actions in a row succeeded.
pub open spec fn after_successes(state: RunState, k: nat) -> RunState
    decreases k,
{
    if k == 0 {
        state
    } else {
        advanced(after_successes(state, (k - 1) as nat), true)
    }
}

/// A lookup that fails, or gives no address, is no failure of the run: the
/// run has nothing to bind and returns.
pub proof fn lemma_nothing_resolved_nothing_to_do(resolved: Option<usize>)
    requires
        resolved is None || resolved == Some(0usize),
    ensures
        action_of(started(resolved)) == RunAction::Return,
{
}

/// While nothing fails, a run over `total` addresses binds each of them in
/// order, then waits for each acceptor in order, then returns.
pub proof fn lemma_run_binds_then_joins(total: usize, k: nat)
    requires
        total > 0,
    ensures
        k < total ==> after_successes(started(Some(total)), k) == (RunState::Binding {
            total,
            next: k as usize,
        }) && action_of(after_successes(started(Some(total)), k)) == RunAction::Bind(k as usize),
        total <= k < 2 * total ==> after_successes(started(Some(total)), k) == (RunState::Joining {
            total,
            next: (k - total) as usize,
        }) && action_of(after_successes(started(Some(total)), k)) == RunAction::Join(
            (k - total) as usize,
        ),
        k >= 2 * total ==> after_successes(started(Some(total)), k) == RunState::Finished
            && action_of(after_successes(started(Some(total)), k)) == RunAction::Return,
    decreases k,
{
    if k > 0 {
        lemma_run_binds_then_joins(total, (k - 1) as nat);
    }
}

/// A failure ends the run for good: a bind that fails, or an acceptor that
/// ends in failure, aborts, and nothing that comes after changes that.
pub proof fn lemma_failure_is_final(state: RunState, later: bool)
    ensures
        state is Binding ==> advanced(state, false) == RunState::Aborted(Fatal::Bind),
        state is Joining ==> advanced(state, false) == RunState::Aborted(Fatal::Acceptor),
        state is Aborted ==> advanced(state, later) == state,
        state is Finished ==> advanced(state, later) == state,
{
}

} // verus!
