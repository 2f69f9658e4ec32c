//! The messages of a WebSocket connection.
use crate::agents::ForAgent;
use crate::text::{cat2, find, from_chars, position, starts_with, to_chars};
use vstd::prelude::*;

verus! {

/// The time between two pings to a client, in seconds.
pub const HEARTBEAT_INTERVAL: u64 = 1;

/// How long a client may be silent before the connection is closed, in nanoseconds.
pub const CLIENT_TIMEOUT: u128 = 10_000_000_000;

/// What stands between a word at the start of a text and the next time that the word occurs, or
/// the end of the text.
pub open spec fn argument(text: Seq<char>, word: Seq<char>) -> Seq<char> {
    let rest = text.skip(word.len() as int);
    if crate::text::includes(rest, word) {
        rest.take(choose|i: int| crate::text::first_occurs(rest, word, i))
    } else {
        rest
    }
}

proof fn lemma_first_is_one(s: Seq<char>, pattern: Seq<char>, i: int)
    requires
        crate::text::first_occurs(s, pattern, i),
    ensures
        (choose|j: int| crate::text::first_occurs(s, pattern, j)) == i,
{
    let j = choose|j: int| crate::text::first_occurs(s, pattern, j);
    assert(crate::text::first_occurs(s, pattern, j));
    if j < i {
        assert(!crate::text::occurs(s, pattern, j));
    }
    if i < j {
        assert(!crate::text::occurs(s, pattern, i));
    }
}

/// What stands after a word at the start of a text, up to the next time that the word occurs.
fn split_argument(text: &str, word: &str) -> (r: String)
    requires
        word@.is_prefix_of(text@),
    ensures
        r@ == argument(text@, word@),
{
    let chars = to_chars(text);
    let wanted = to_chars(word);
    let rest_text = from_chars(&chars, wanted.len(), chars.len());
    let rest = to_chars(rest_text.as_str());
    assert(rest@ =~= text@.skip(word@.len() as int));
    match find(&rest, &wanted) {
        Some(i) => {
            proof {
                lemma_first_is_one(rest@, word@, i as int);
                assert(crate::text::occurs(rest@, word@, i as int));
            }
            let r = from_chars(&rest, 0, i);
            assert(r@ =~= rest@.take(i as int));
            r
        },
        None => rest_text,
    }
}

/// What a client asks for.
pub enum Command {
    /// Send a resource.
    Get(String),
    /// Act for an agent from now on. The text says for whom, and proves it.
    Authenticate(String),
    /// Send the commits on a resource from now on.
    Subscribe(String),
    /// Do not send them any more.
    Unsubscribe(String),
    /// Send the updates of a document from now on. The text says of which.
    YSubscribe(String),
    /// Do not send them any more.
    YUnsubscribe(String),
    /// Send an update of a document to everybody who gets its updates, the sender too.
    YUpdate(String),
    /// Nothing that is known.
    Unknown(String),
}

/// What a [Command] says.
pub enum CommandView {
    Get(Seq<char>),
    Authenticate(Seq<char>),
    Subscribe(Seq<char>),
    Unsubscribe(Seq<char>),
    YSubscribe(Seq<char>),
    YUnsubscribe(Seq<char>),
    YUpdate(Seq<char>),
    Unknown(Seq<char>),
}

impl View for Command {
    type V = CommandView;

    open spec fn view(&self) -> CommandView {
        match *self {
            Command::Get(s) => CommandView::Get(s@),
            Command::Authenticate(s) => CommandView::Authenticate(s@),
            Command::Subscribe(s) => CommandView::Subscribe(s@),
            Command::Unsubscribe(s) => CommandView::Unsubscribe(s@),
            Command::YSubscribe(s) => CommandView::YSubscribe(s@),
            Command::YUnsubscribe(s) => CommandView::YUnsubscribe(s@),
            Command::YUpdate(s) => CommandView::YUpdate(s@),
            Command::Unknown(s) => CommandView::Unknown(s@),
        }
    }
}

/// What the text of a message asks for: the word that it starts with, and what follows.
pub open spec fn command_of(text: Seq<char>) -> CommandView {
    if "GET "@.is_prefix_of(text) {
        CommandView::Get(argument(text, "GET "@))
    } else if "AUTHENTICATE "@.is_prefix_of(text) {
        CommandView::Authenticate(argument(text, "AUTHENTICATE "@))
    } else if "SUBSCRIBE "@.is_prefix_of(text) {
        CommandView::Subscribe(argument(text, "SUBSCRIBE "@))
    } else if "UNSUBSCRIBE "@.is_prefix_of(text) {
        CommandView::Unsubscribe(argument(text, "UNSUBSCRIBE "@))
    } else if "Y_SYNC_SUBSCRIBE "@.is_prefix_of(text) {
        CommandView::YSubscribe(argument(text, "Y_SYNC_SUBSCRIBE "@))
    } else if "Y_SYNC_UNSUBSCRIBE "@.is_prefix_of(text) {
        CommandView::YUnsubscribe(argument(text, "Y_SYNC_UNSUBSCRIBE "@))
    } else if "Y_SYNC_UPDATE "@.is_prefix_of(text) {
        CommandView::YUpdate(argument(text, "Y_SYNC_UPDATE "@))
    } else {
        CommandView::Unknown(text)
    }
}

/// Reads the text of a message.
pub fn parse_command(text: &str) -> (r: Command)
    ensures
        r@ == command_of(text@),
{
    if starts_with(text, "GET ") {
        Command::Get(split_argument(text, "GET "))
    } else if starts_with(text, "AUTHENTICATE ") {
        Command::Authenticate(split_argument(text, "AUTHENTICATE "))
    } else if starts_with(text, "SUBSCRIBE ") {
        Command::Subscribe(split_argument(text, "SUBSCRIBE "))
    } else if starts_with(text, "UNSUBSCRIBE ") {
        Command::Unsubscribe(split_argument(text, "UNSUBSCRIBE "))
    } else if starts_with(text, "Y_SYNC_SUBSCRIBE ") {
        Command::YSubscribe(split_argument(text, "Y_SYNC_SUBSCRIBE "))
    } else if starts_with(text, "Y_SYNC_UNSUBSCRIBE ") {
        Command::YUnsubscribe(split_argument(text, "Y_SYNC_UNSUBSCRIBE "))
    } else if starts_with(text, "Y_SYNC_UPDATE ") {
        Command::YUpdate(split_argument(text, "Y_SYNC_UPDATE "))
    } else {
        Command::Unknown(text.to_owned())
    }
}

/// What comes in over a connection.
pub enum Frame {
    Ping(Vec<u8>),
    Pong,
    Text(String),
    Binary,
    Close,
    /// Anything else, errors of the protocol included.
    Other,
}

/// What is done about it.
pub enum Action {
    Nothing,
    /// Answer a ping with its bytes.
    Pong(Vec<u8>),
    /// Send a text.
    Send(String),
    /// Get a resource for this agent, and send it.
    GetResource(String, ForAgent),
    /// Find out which agent a text proves.
    Authenticate(String),
    /// Have the commits on a resource sent, for this agent.
    Subscribe(String, ForAgent),
    /// Have the updates of a document sent, for this agent.
    YSubscribe(String, ForAgent),
    YUnsubscribe(String),
    YUpdate(String),
    /// Say goodbye and close the connection.
    Close,
    /// Close the connection.
    Stop,
}

/// What an [Action] says.
pub enum ActionView {
    Nothing,
    Pong(Seq<u8>),
    Send(Seq<char>),
    GetResource(Seq<char>, ForAgent),
    Authenticate(Seq<char>),
    Subscribe(Seq<char>, ForAgent),
    YSubscribe(Seq<char>, ForAgent),
    YUnsubscribe(Seq<char>),
    YUpdate(Seq<char>),
    Close,
    Stop,
}

impl View for Action {
    type V = ActionView;

    open spec fn view(&self) -> ActionView {
        match *self {
            Action::Nothing => ActionView::Nothing,
            Action::Pong(bytes) => ActionView::Pong(bytes@),
            Action::Send(s) => ActionView::Send(s@),
            Action::GetResource(s, agent) => ActionView::GetResource(s@, agent),
            Action::Authenticate(s) => ActionView::Authenticate(s@),
            Action::Subscribe(s, agent) => ActionView::Subscribe(s@, agent),
            Action::YSubscribe(s, agent) => ActionView::YSubscribe(s@, agent),
            Action::YUnsubscribe(s) => ActionView::YUnsubscribe(s@),
            Action::YUpdate(s) => ActionView::YUpdate(s@),
            Action::Close => ActionView::Close,
            Action::Stop => ActionView::Stop,
        }
    }
}

/// A connection to a client.
pub struct WebSocketConnection {
    /// When the client was last heard, in nanoseconds.
    pub hb: u128,
    /// The resources that the client is subscribed to. Each is in the list once.
    pub subscribed: Vec<String>,
    /// The agent for whom the client acts.
    pub agent: ForAgent,
}

/// What a [WebSocketConnection] says.
pub struct ConnectionView {
    pub hb: int,
    pub subscribed: Set<Seq<char>>,
    pub agent: ForAgent,
}

impl View for WebSocketConnection {
    type V = ConnectionView;

    open spec fn view(&self) -> ConnectionView {
        ConnectionView {
            hb: self.hb as int,
            subscribed: crate::text::list(self.subscribed@).to_set(),
            agent: self.agent,
        }
    }
}

/// What becomes of a connection when a command comes in, and what is done.
pub open spec fn on_command(conn: ConnectionView, command: CommandView) -> (
    ConnectionView,
    ActionView,
) {
    match command {
        CommandView::Get(s) => (conn, ActionView::GetResource(s, conn.agent)),
        CommandView::Authenticate(s) => (conn, ActionView::Authenticate(s)),
        CommandView::Subscribe(s) => (
            ConnectionView { subscribed: conn.subscribed.insert(s), ..conn },
            ActionView::Subscribe(s, conn.agent),
        ),
        CommandView::Unsubscribe(s) => (
            ConnectionView { subscribed: conn.subscribed.remove(s), ..conn },
            ActionView::Nothing,
        ),
        CommandView::YSubscribe(s) => (conn, ActionView::YSubscribe(s, conn.agent)),
        CommandView::YUnsubscribe(s) => (conn, ActionView::YUnsubscribe(s)),
        CommandView::YUpdate(s) => (conn, ActionView::YUpdate(s)),
        CommandView::Unknown(s) => (conn, ActionView::Send("ERROR "@ + ("Unknown message: "@ + s))),
    }
}

/// What becomes of a connection when something comes in, and what is done.
pub open spec fn on_frame(conn: ConnectionView, frame: Frame, now: int) -> (
    ConnectionView,
    ActionView,
) {
    match frame {
        Frame::Ping(bytes) => (ConnectionView { hb: now, ..conn }, ActionView::Pong(bytes@)),
        Frame::Pong => (ConnectionView { hb: now, ..conn }, ActionView::Nothing),
        Frame::Text(text) => on_command(conn, command_of(text@)),
        Frame::Binary => (conn, ActionView::Send("ERROR Binary not supported"@)),
        Frame::Close => (conn, ActionView::Close),
        Frame::Other => (conn, ActionView::Stop),
    }
}

impl WebSocketConnection {
    /// No resource is in the list twice.
    pub open spec fn wf(&self) -> bool {
        crate::text::list(self.subscribed@).no_duplicates()
    }

    /// A new connection, subscribed to nothing.
    pub fn new(agent: ForAgent, now: u128) -> (r: WebSocketConnection)
        ensures
            r.wf(),
            r@ == (ConnectionView { hb: now as int, subscribed: Set::empty(), agent }),
    {
        let r = WebSocketConnection { hb: now, subscribed: Vec::new(), agent };
        assert(crate::text::list(r.subscribed@).to_set() =~= Set::empty());
        r
    }

    /// Remembers a subscription.
    fn subscribe(&mut self, subject: &str)
        requires
            old(self).wf(),
        ensures
            final(self).wf(),
            final(self)@ == (ConnectionView {
                subscribed: old(self)@.subscribed.insert(subject@),
                ..old(self)@
            }),
    {
        let ghost before = crate::text::list(self.subscribed@);
        match position(&self.subscribed, subject) {
            Some(i) => {
                assert(before[i as int] == subject@);
                assert(before.contains(subject@));
                assert(before.to_set().insert(subject@) =~= before.to_set());
            },
            None => {
                self.subscribed.push(subject.to_owned());
                let ghost after = crate::text::list(self.subscribed@);
                assert(after =~= before.push(subject@));
                proof {
                    assert forall|x: Seq<char>| after.contains(x) <==> before.contains(x) || x
                        == subject@ by {
                        if before.contains(x) {
                            let k = before.index_of(x);
                            assert(after[k] == x);
                        }
                        if x == subject@ {
                            assert(after[before.len() as int] == x);
                        }
                    }
                    assert(after.to_set() =~= before.to_set().insert(subject@));
                }
            },
        }
    }

    /// Forgets a subscription.
    fn unsubscribe(&mut self, subject: &str)
        requires
            old(self).wf(),
        ensures
            final(self).wf(),
            final(self)@ == (ConnectionView {
                subscribed: old(self)@.subscribed.remove(subject@),
                ..old(self)@
            }),
    {
        let ghost before = crate::text::list(self.subscribed@);
        match position(&self.subscribed, subject) {
            Some(i) => {
                self.subscribed.remove(i);
                let ghost after = crate::text::list(self.subscribed@);
                assert(after =~= before.remove(i as int));
                proof {
                    assert(before[i as int] == subject@);
                    assert forall|x: Seq<char>| after.contains(x) <==> before.contains(x) && x
                        != subject@ by {
                        if after.contains(x) {
                            let k = after.index_of(x);
                            let m = if k < i {
                                k
                            } else {
                                k + 1
                            };
                            assert(before[m] == x);
                        }
                        if before.contains(x) && x != subject@ {
                            let m = before.index_of(x);
                            let k = if m < i {
                                m
                            } else {
                                m - 1
                            };
                            assert(after[k] == x);
                        }
                    }
                    assert(after.to_set() =~= before.to_set().remove(subject@));
                }
            },
            None => {
                assert(before.to_set().remove(subject@) =~= before.to_set());
            },
        }
    }

    /// Takes in a command.
    pub fn handle_ws_message_sync(&mut self, command: Command) -> (r: Action)
        requires
            old(self).wf(),
        ensures
            final(self).wf(),
            (final(self)@, r@) == on_command(old(self)@, command@),
    {
        match command {
            Command::Get(s) => Action::GetResource(s, self.agent.copy()),
            Command::Authenticate(s) => Action::Authenticate(s),
            Command::Subscribe(s) => {
                self.subscribe(s.as_str());
                Action::Subscribe(s, self.agent.copy())
            },
            Command::Unsubscribe(s) => {
                self.unsubscribe(s.as_str());
                Action::Nothing
            },
            Command::YSubscribe(s) => Action::YSubscribe(s, self.agent.copy()),
            Command::YUnsubscribe(s) => Action::YUnsubscribe(s),
            Command::YUpdate(s) => Action::YUpdate(s),
            Command::Unknown(s) => {
                let message = cat2("Unknown message: ", s.as_str());
                Action::Send(cat2("ERROR ", message.as_str()))
            },
        }
    }

    /// Takes in what comes in over the connection.
    pub fn handle(&mut self, frame: Frame, now: u128) -> (r: Action)
        requires
            old(self).wf(),
        ensures
            final(self).wf(),
            (final(self)@, r@) == on_frame(old(self)@, frame, now as int),
    {
        match frame {
            Frame::Ping(bytes) => {
                self.hb = now;
                Action::Pong(bytes)
            },
            Frame::Pong => {
                self.hb = now;
                Action::Nothing
            },
            Frame::Text(text) => {
                let command = parse_command(text.as_str());
                self.handle_ws_message_sync(command)
            },
            Frame::Binary => Action::Send("ERROR Binary not supported".to_owned()),
            Frame::Close => Action::Close,
            Frame::Other => Action::Stop,
        }
    }

    /// Takes in which agent a client has proved to act for, or why it has not, and answers.
    pub fn authenticated(&mut self, agent: Result<ForAgent, String>) -> (r: String)
        requires
            old(self).wf(),
        ensures
            final(self).wf(),
            final(self)@.hb == old(self)@.hb,
            final(self)@.subscribed == old(self)@.subscribed,
            match agent {
                Ok(a) => final(self)@.agent == a && r@ == "AUTHENTICATED"@,
                Err(e) => final(self)@.agent == old(self)@.agent && r@ == "ERROR "@ + e@,
            },
    {
        match agent {
            Ok(a) => {
                self.agent = a;
                "AUTHENTICATED".to_owned()
            },
            Err(e) => cat2("ERROR ", e.as_str()),
        }
    }

    /// Whether the client has been silent for too long. Otherwise it is pinged.
    pub fn timed_out(&self, now: u128) -> (r: bool)
        ensures
            r == (now - self@.hb > CLIENT_TIMEOUT),
    {
        now > self.hb && now - self.hb > CLIENT_TIMEOUT
    }
}

/// Unsubscribing from a resource undoes subscribing to it, where the client was not subscribed
/// before.
pub proof fn unsubscribing_undoes_subscribing(conn: ConnectionView, subject: Seq<char>)
    requires
        !conn.subscribed.contains(subject),
    ensures
        on_command(
            on_command(conn, CommandView::Subscribe(subject)).0,
            CommandView::Unsubscribe(subject),
        ).0 == conn,
{
    assert(conn.subscribed.insert(subject).remove(subject) =~= conn.subscribed);
}

proof fn lemma_not_prefix(word: Seq<char>, text: Seq<char>, k: int)
    requires
        0 <= k < word.len(),
        k < text.len() ==> word[k] != text[k],
    ensures
        !word.is_prefix_of(text),
{
    if word.is_prefix_of(text) {
        assert(text.subrange(0, word.len() as int)[k] == text[k]);
    }
}

proof fn lemma_argument(word: Seq<char>, rest: Seq<char>)
    requires
        !crate::text::includes(rest, word),
    ensures
        argument(word + rest, word) == rest,
        word.is_prefix_of(word + rest),
{
    assert((word + rest).skip(word.len() as int) =~= rest);
    assert((word + rest).subrange(0, word.len() as int) =~= word);
}

/// A text with the word for fetching and then an address has that resource fetched, for the agent of
/// the connection, and leaves the connection as it is.
pub proof fn a_resource_is_fetched_where_it_is_asked_for(
    conn: ConnectionView,
    frame: Frame,
    s: Seq<char>,
    now: int,
)
    requires
        frame matches Frame::Text(text) && text@ == "GET "@ + s,
        !crate::text::includes(s, "GET "@),
    ensures
        on_frame(conn, frame, now).1 == ActionView::GetResource(s, conn.agent),
        on_frame(conn, frame, now).0 == conn,
{
    reveal_strlit("GET ");
    reveal_strlit("AUTHENTICATE ");
    reveal_strlit("SUBSCRIBE ");
    reveal_strlit("UNSUBSCRIBE ");
    reveal_strlit("Y_SYNC_SUBSCRIBE ");
    reveal_strlit("Y_SYNC_UNSUBSCRIBE ");
    reveal_strlit("Y_SYNC_UPDATE ");
    let text = "GET "@ + s;
    lemma_argument("GET "@, s);
}

/// A text with the word for proving an agent has what follows looked at, and leaves the connection as it
/// is until then.
pub proof fn a_proof_is_looked_at_where_it_is_sent(
    conn: ConnectionView,
    frame: Frame,
    s: Seq<char>,
    now: int,
)
    requires
        frame matches Frame::Text(text) && text@ == "AUTHENTICATE "@ + s,
        !crate::text::includes(s, "AUTHENTICATE "@),
    ensures
        on_frame(conn, frame, now).1 == ActionView::Authenticate(s),
        on_frame(conn, frame, now).0 == conn,
{
    reveal_strlit("GET ");
    reveal_strlit("AUTHENTICATE ");
    reveal_strlit("SUBSCRIBE ");
    reveal_strlit("UNSUBSCRIBE ");
    reveal_strlit("Y_SYNC_SUBSCRIBE ");
    reveal_strlit("Y_SYNC_UNSUBSCRIBE ");
    reveal_strlit("Y_SYNC_UPDATE ");
    let text = "AUTHENTICATE "@ + s;
    lemma_argument("AUTHENTICATE "@, s);
    assert(text[0] == "AUTHENTICATE "@[0]);
    lemma_not_prefix("GET "@, text, 0);
}

/// A text with the word for subscribing and then an address has the commits on that resource sent, for
/// the agent of the connection, which remembers it.
pub proof fn commits_are_sent_where_they_are_asked_for(
    conn: ConnectionView,
    frame: Frame,
    s: Seq<char>,
    now: int,
)
    requires
        frame matches Frame::Text(text) && text@ == "SUBSCRIBE "@ + s,
        !crate::text::includes(s, "SUBSCRIBE "@),
    ensures
        on_frame(conn, frame, now).1 == ActionView::Subscribe(s, conn.agent),
        on_frame(conn, frame, now).0 == (ConnectionView { subscribed: conn.subscribed.insert(s), ..conn }),
{
    reveal_strlit("GET ");
    reveal_strlit("AUTHENTICATE ");
    reveal_strlit("SUBSCRIBE ");
    reveal_strlit("UNSUBSCRIBE ");
    reveal_strlit("Y_SYNC_SUBSCRIBE ");
    reveal_strlit("Y_SYNC_UNSUBSCRIBE ");
    reveal_strlit("Y_SYNC_UPDATE ");
    let text = "SUBSCRIBE "@ + s;
    lemma_argument("SUBSCRIBE "@, s);
    assert(text[0] == "SUBSCRIBE "@[0]);
    lemma_not_prefix("GET "@, text, 0);
    assert(text[0] == "SUBSCRIBE "@[0]);
    lemma_not_prefix("AUTHENTICATE "@, text, 0);
}

/// A text with the word for unsubscribing and then an address makes the connection forget it.
pub proof fn commits_are_not_sent_where_they_are_not_wanted(
    conn: ConnectionView,
    frame: Frame,
    s: Seq<char>,
    now: int,
)
    requires
        frame matches Frame::Text(text) && text@ == "UNSUBSCRIBE "@ + s,
        !crate::text::includes(s, "UNSUBSCRIBE "@),
    ensures
        on_frame(conn, frame, now).1 == ActionView::Nothing,
        on_frame(conn, frame, now).0 == (ConnectionView { subscribed: conn.subscribed.remove(s), ..conn }),
{
    reveal_strlit("GET ");
    reveal_strlit("AUTHENTICATE ");
    reveal_strlit("SUBSCRIBE ");
    reveal_strlit("UNSUBSCRIBE ");
    reveal_strlit("Y_SYNC_SUBSCRIBE ");
    reveal_strlit("Y_SYNC_UNSUBSCRIBE ");
    reveal_strlit("Y_SYNC_UPDATE ");
    let text = "UNSUBSCRIBE "@ + s;
    lemma_argument("UNSUBSCRIBE "@, s);
    assert(text[0] == "UNSUBSCRIBE "@[0]);
    lemma_not_prefix("GET "@, text, 0);
    assert(text[0] == "UNSUBSCRIBE "@[0]);
    lemma_not_prefix("AUTHENTICATE "@, text, 0);
    assert(text[0] == "UNSUBSCRIBE "@[0]);
    lemma_not_prefix("SUBSCRIBE "@, text, 0);
}

/// A text with the word for subscribing to a document has its updates sent, for the agent of the
/// connection.
pub proof fn updates_are_sent_where_they_are_asked_for(
    conn: ConnectionView,
    frame: Frame,
    s: Seq<char>,
    now: int,
)
    requires
        frame matches Frame::Text(text) && text@ == "Y_SYNC_SUBSCRIBE "@ + s,
        !crate::text::includes(s, "Y_SYNC_SUBSCRIBE "@),
    ensures
        on_frame(conn, frame, now).1 == ActionView::YSubscribe(s, conn.agent),
        on_frame(conn, frame, now).0 == conn,
{
    reveal_strlit("GET ");
    reveal_strlit("AUTHENTICATE ");
    reveal_strlit("SUBSCRIBE ");
    reveal_strlit("UNSUBSCRIBE ");
    reveal_strlit("Y_SYNC_SUBSCRIBE ");
    reveal_strlit("Y_SYNC_UNSUBSCRIBE ");
    reveal_strlit("Y_SYNC_UPDATE ");
    let text = "Y_SYNC_SUBSCRIBE "@ + s;
    lemma_argument("Y_SYNC_SUBSCRIBE "@, s);
    assert(text[0] == "Y_SYNC_SUBSCRIBE "@[0]);
    lemma_not_prefix("GET "@, text, 0);
    assert(text[0] == "Y_SYNC_SUBSCRIBE "@[0]);
    lemma_not_prefix("AUTHENTICATE "@, text, 0);
    assert(text[0] == "Y_SYNC_SUBSCRIBE "@[0]);
    lemma_not_prefix("SUBSCRIBE "@, text, 0);
    assert(text[0] == "Y_SYNC_SUBSCRIBE "@[0]);
    lemma_not_prefix("UNSUBSCRIBE "@, text, 0);
}

/// A text with the word for unsubscribing from a document ends that its updates are sent.
pub proof fn updates_are_not_sent_where_they_are_not_wanted(
    conn: ConnectionView,
    frame: Frame,
    s: Seq<char>,
    now: int,
)
    requires
        frame matches Frame::Text(text) && text@ == "Y_SYNC_UNSUBSCRIBE "@ + s,
        !crate::text::includes(s, "Y_SYNC_UNSUBSCRIBE "@),
    ensures
        on_frame(conn, frame, now).1 == ActionView::YUnsubscribe(s),
        on_frame(conn, frame, now).0 == conn,
{
    reveal_strlit("GET ");
    reveal_strlit("AUTHENTICATE ");
    reveal_strlit("SUBSCRIBE ");
    reveal_strlit("UNSUBSCRIBE ");
    reveal_strlit("Y_SYNC_SUBSCRIBE ");
    reveal_strlit("Y_SYNC_UNSUBSCRIBE ");
    reveal_strlit("Y_SYNC_UPDATE ");
    let text = "Y_SYNC_UNSUBSCRIBE "@ + s;
    lemma_argument("Y_SYNC_UNSUBSCRIBE "@, s);
    assert(text[0] == "Y_SYNC_UNSUBSCRIBE "@[0]);
    lemma_not_prefix("GET "@, text, 0);
    assert(text[0] == "Y_SYNC_UNSUBSCRIBE "@[0]);
    lemma_not_prefix("AUTHENTICATE "@, text, 0);
    assert(text[0] == "Y_SYNC_UNSUBSCRIBE "@[0]);
    lemma_not_prefix("SUBSCRIBE "@, text, 0);
    assert(text[0] == "Y_SYNC_UNSUBSCRIBE "@[0]);
    lemma_not_prefix("UNSUBSCRIBE "@, text, 0);
    assert(text[7] == "Y_SYNC_UNSUBSCRIBE "@[7]);
    lemma_not_prefix("Y_SYNC_SUBSCRIBE "@, text, 7);
}

/// A text with the word for updating a document has what follows passed on.
pub proof fn updates_are_passed_on(
    conn: ConnectionView,
    frame: Frame,
    s: Seq<char>,
    now: int,
)
    requires
        frame matches Frame::Text(text) && text@ == "Y_SYNC_UPDATE "@ + s,
        !crate::text::includes(s, "Y_SYNC_UPDATE "@),
    ensures
        on_frame(conn, frame, now).1 == ActionView::YUpdate(s),
        on_frame(conn, frame, now).0 == conn,
{
    reveal_strlit("GET ");
    reveal_strlit("AUTHENTICATE ");
    reveal_strlit("SUBSCRIBE ");
    reveal_strlit("UNSUBSCRIBE ");
    reveal_strlit("Y_SYNC_SUBSCRIBE ");
    reveal_strlit("Y_SYNC_UNSUBSCRIBE ");
    reveal_strlit("Y_SYNC_UPDATE ");
    let text = "Y_SYNC_UPDATE "@ + s;
    lemma_argument("Y_SYNC_UPDATE "@, s);
    assert(text[0] == "Y_SYNC_UPDATE "@[0]);
    lemma_not_prefix("GET "@, text, 0);
    assert(text[0] == "Y_SYNC_UPDATE "@[0]);
    lemma_not_prefix("AUTHENTICATE "@, text, 0);
    assert(text[0] == "Y_SYNC_UPDATE "@[0]);
    lemma_not_prefix("SUBSCRIBE "@, text, 0);
    assert(text[0] == "Y_SYNC_UPDATE "@[0]);
    lemma_not_prefix("UNSUBSCRIBE "@, text, 0);
    assert(text[7] == "Y_SYNC_UPDATE "@[7]);
    lemma_not_prefix("Y_SYNC_SUBSCRIBE "@, text, 7);
    assert(text[8] == "Y_SYNC_UPDATE "@[8]);
    lemma_not_prefix("Y_SYNC_UNSUBSCRIBE "@, text, 8);
}

/// Whatever is done for an agent is done for the agent of the connection.
pub proof fn actions_are_for_the_agent_of_the_connection(
    conn: ConnectionView,
    frame: Frame,
    now: int,
)
    ensures
        match on_frame(conn, frame, now).1 {
            ActionView::GetResource(_, agent) => agent == conn.agent,
            ActionView::Subscribe(_, agent) => agent == conn.agent,
            ActionView::YSubscribe(_, agent) => agent == conn.agent,
            _ => true,
        },
{
}

/// A client is heard when it sends a ping or answers one, and a ping is answered with its bytes. What
/// else comes in does not count as hearing it, and neither of them changes its subscriptions.
pub proof fn pings_keep_a_connection_alive(conn: ConnectionView, frame: Frame, now: int)
    ensures
        frame is Ping || frame is Pong ==> on_frame(conn, frame, now).0 == (ConnectionView {
            hb: now,
            ..conn
        }),
        !(frame is Ping) && !(frame is Pong) ==> on_frame(conn, frame, now).0.hb == conn.hb,
        !(frame is Text) ==> on_frame(conn, frame, now).0.subscribed == conn.subscribed,
        frame matches Frame::Ping(bytes) ==> on_frame(conn, frame, now).1 == ActionView::Pong(
            bytes@,
        ),
        frame is Close ==> on_frame(conn, frame, now).1 is Close,
        frame is Other ==> on_frame(conn, frame, now).1 is Stop,
        on_frame(conn, frame, now).1 is Close ==> frame is Close,
        on_frame(conn, frame, now).1 is Stop ==> frame is Other,
{
}

/// A text that starts with none of the words is answered with an error that shows it, and changes
/// nothing.
pub proof fn unknown_texts_are_refused(conn: ConnectionView, frame: Frame, now: int)
    requires
        frame matches Frame::Text(text) && !"GET "@.is_prefix_of(text@)
            && !"AUTHENTICATE "@.is_prefix_of(text@) && !"SUBSCRIBE "@.is_prefix_of(text@)
            && !"UNSUBSCRIBE "@.is_prefix_of(text@) && !"Y_SYNC_SUBSCRIBE "@.is_prefix_of(text@)
            && !"Y_SYNC_UNSUBSCRIBE "@.is_prefix_of(text@) && !"Y_SYNC_UPDATE "@.is_prefix_of(
            text@,
        ),
    ensures
        on_frame(conn, frame, now).0 == conn,
        on_frame(conn, frame, now).1 matches ActionView::Send(answer) && answer == "ERROR "@ + (
        "Unknown message: "@ + frame->Text_0@),
{
}

/// No text that a client sends changes for whom it acts; only a proof does.
pub proof fn texts_do_not_change_the_agent(conn: ConnectionView, frame: Frame, now: int)
    ensures
        on_frame(conn, frame, now).0.agent == conn.agent,
{
}

/// What a client is told about a text that does not prove an agent.
pub fn explain_auth_json(cause: &str) -> (r: String)
    ensures
        r@ == "Invalid AUTHENTICATE JSON: "@ + cause@,
{
    cat2("Invalid AUTHENTICATE JSON: ", cause)
}

/// What a client is told about a proof that does not hold.
pub fn explain_auth(cause: &str) -> (r: String)
    ensures
        r@ == "Authentication failed: "@ + cause@,
{
    cat2("Authentication failed: ", cause)
}

/// What a client is told about an update that cannot be read.
pub fn explain_update_json(cause: &str) -> (r: String)
    ensures
        r@ == "Invalid Y_SYNC_UPDATE JSON: "@ + cause@,
{
    cat2("Invalid Y_SYNC_UPDATE JSON: ", cause)
}

/// The message that tells a client of an error.
pub fn error_message(cause: &str) -> (r: String)
    ensures
        r@ == "ERROR "@ + cause@,
{
    cat2("ERROR ", cause)
}

/// The message that sends a resource.
pub fn resource_message(json_ad: &str) -> (r: String)
    ensures
        r@ == "RESOURCE "@ + json_ad@,
{
    cat2("RESOURCE ", json_ad)
}

/// The message that sends a commit.
pub fn commit_message(json_ad: &str) -> (r: String)
    ensures
        r@ == "COMMIT "@ + json_ad@,
{
    cat2("COMMIT ", json_ad)
}

/// The message that sends an update of a document.
pub fn update_message(json: &str) -> (r: String)
    ensures
        r@ == "Y_SYNC_UPDATE "@ + json@,
{
    cat2("Y_SYNC_UPDATE ", json)
}

/// What is no text leaves the connection as it is, but for when the client was last heard: bytes are
/// refused, and a client that closes the connection, or sends anything else, is not answered.
pub proof fn other_frames_change_nothing(conn: ConnectionView, frame: Frame, now: int)
    requires
        !(frame is Text),
    ensures
        on_frame(conn, frame, now).0.subscribed == conn.subscribed,
        on_frame(conn, frame, now).0.agent == conn.agent,
        !(frame is Ping) && !(frame is Pong) ==> on_frame(conn, frame, now).0 == conn,
        frame is Binary ==> (on_frame(conn, frame, now).1 matches ActionView::Send(answer)
            && "ERROR "@.is_prefix_of(answer)),
        frame is Close ==> on_frame(conn, frame, now).1 is Close,
        frame is Other ==> on_frame(conn, frame, now).1 is Stop,
        frame is Pong ==> on_frame(conn, frame, now).1 is Nothing,
{
    reveal_strlit("ERROR ");
    reveal_strlit("ERROR Binary not supported");
    assert("ERROR Binary not supported"@.subrange(0, "ERROR "@.len() as int) =~= "ERROR "@);
}

/// What a word at the start of a text asks for stands between the word and the next time that it
/// occurs, or the end of the text.
pub proof fn arguments_end_where_their_word_comes_again(
    word: Seq<char>,
    rest: Seq<char>,
    i: int,
)
    ensures
        !crate::text::includes(rest, word) ==> argument(word + rest, word) == rest,
        crate::text::first_occurs(rest, word, i) ==> argument(word + rest, word) == rest.take(i),
{
    assert((word + rest).skip(word.len() as int) =~= rest);
    if crate::text::first_occurs(rest, word, i) {
        assert(crate::text::occurs(rest, word, i));
        lemma_first_is_one(rest, word, i);
    }
}

} // verus!
