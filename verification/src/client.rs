//! One connection's state, and what it decides: what to send, what to wait
//! for, and what follows from the bytes that arrive. The transport itself
//! belongs to the caller, who carries out what the client decides.

use vstd::prelude::*;
use vstd::slice::slice_subrange;
use vstd::string::StringExecFns;
use vstd::utf8::{decode_utf8, valid_utf8};
use crate::irc::{lemma_parsed_ping, parsed, Error, Event, Line, LineView, PrivMsg, PrivMsgView};
use crate::text::{decode, line_spans, lines, pieces, spans_within};

verus! {

/// How long a wait lasts when nothing says otherwise, in milliseconds.
pub const SYNC_TIMEOUT_MILLIS: u64 = 120_000;

/// A wait for an event of a class, bounded in time. Without a class it is a
/// wait until nothing more arrives.
#[derive(Debug, PartialEq, Eq, Structural, Clone, Copy)]
pub struct Wait {
    pub target: Option<Event>,
    pub millis: u64,
}

/// A command to transmit, and the wait for the server's answer to it.
#[derive(Debug, PartialEq, Eq)]
pub struct Exchange {
    pub command: String,
    pub wait: Wait,
}

/// What one read attempt of a wait came to.
#[derive(Debug, PartialEq, Eq)]
pub struct Turn {
    /// The keepalive answers to transmit, in the order of their probes.
    pub replies: Vec<String>,
    /// The texts of the notices that arrived, in their order.
    pub notices: Vec<String>,
    /// Whether the wait is over.
    pub done: bool,
}

/// A `Turn` as plain values.
pub struct TurnView {
    pub replies: Seq<Seq<char>>,
    pub notices: Seq<Seq<char>>,
    pub done: bool,
}

impl DeepView for Turn {
    type V = TurnView;

    open spec fn deep_view(&self) -> TurnView {
        TurnView {
            replies: self.replies.deep_view(),
            notices: self.notices.deep_view(),
            done: self.done,
        }
    }
}

impl View for Turn {
    type V = TurnView;

    open spec fn view(&self) -> TurnView {
        self.deep_view()
    }
}

/// The state of one connection.
#[derive(Debug)]
pub struct Client {
    channel: Option<String>,
    logged_in: bool,
    pub privmsgs: Vec<PrivMsg>,
}

/// A `Client` as plain values.
pub struct ClientView {
    /// The channel joined, without its leading hash sign.
    pub channel: Option<Seq<char>>,
    /// Whether the server has accepted the registration.
    pub logged_in: bool,
    /// The messages received and not yet taken out, oldest first.
    pub privmsgs: Seq<PrivMsgView>,
}

/// The answer to a keepalive probe with argument `arg`.
pub open spec fn pong(arg: Seq<char>) -> Seq<char> {
    "PONG "@ + arg + "\r\n"@
}

/// The registration commands for the name `nickname`.
pub open spec fn login_command(nickname: Seq<char>) -> Seq<char> {
    "USER "@ + nickname + " "@ + nickname + " "@ + nickname + " :asciirc\r\nNICK "@ + nickname
        + "\r\n"@
}

/// The command that asks to join `channel`.
pub open spec fn join_command(channel: Seq<char>) -> Seq<char> {
    "JOIN #"@ + channel + "\r\n"@
}

/// The command that sends `message` to `channel`.
pub open spec fn message_command(channel: Seq<char>, message: Seq<char>) -> Seq<char> {
    "PRIVMSG #"@ + channel + " :"@ + message + "\r\n"@
}

/// The keepalive answer that a line calls for, if it is a probe.
pub open spec fn reply_to(line: Seq<char>) -> Option<Seq<char>> {
    match parsed(line) {
        Some(LineView::Ping(arg)) => Some(pong(arg)),
        _ => None,
    }
}

/// The text of the notice in a line, if it is one.
pub open spec fn notice_in(line: Seq<char>) -> Option<Seq<char>> {
    match parsed(line) {
        Some(LineView::Notice(text)) => Some(text),
        _ => None,
    }
}

/// Whether a line is an event of the class waited for.
pub open spec fn hits(line: Seq<char>, target: Option<Event>) -> bool {
    match parsed(line) {
        Some(l) => l.event() is Some && l.event() == target,
        None => false,
    }
}

/// How many of the lines a wait takes in: all up to and including the first
/// that is an event of the class waited for, and all of them if none is.
pub open spec fn taken(ls: Seq<Seq<char>>, target: Option<Event>) -> nat
    decreases ls.len(),
{
    if ls.len() == 0 {
        0
    } else if hits(ls[0], target) {
        1
    } else {
        1 + taken(ls.drop_first(), target)
    }
}

/// Whether one of the lines is an event of the class waited for.
pub open spec fn reached(ls: Seq<Seq<char>>, target: Option<Event>) -> bool {
    exists|i: int| 0 <= i < ls.len() && hits(#[trigger] ls[i], target)
}

/// The keepalive answers that the lines call for, in their order.
pub open spec fn replies(ls: Seq<Seq<char>>) -> Seq<Seq<char>>
    decreases ls.len(),
{
    if ls.len() == 0 {
        Seq::empty()
    } else {
        match reply_to(ls.last()) {
            Some(r) => replies(ls.drop_last()).push(r),
            None => replies(ls.drop_last()),
        }
    }
}

/// The texts of the notices among the lines, in their order.
pub open spec fn notices(ls: Seq<Seq<char>>) -> Seq<Seq<char>>
    decreases ls.len(),
{
    if ls.len() == 0 {
        Seq::empty()
    } else {
        match notice_in(ls.last()) {
            Some(t) => notices(ls.drop_last()).push(t),
            None => notices(ls.drop_last()),
        }
    }
}

impl ClientView {
    /// The state of a connection on which nothing has arrived.
    pub open spec fn fresh() -> ClientView {
        ClientView { channel: None, logged_in: false, privmsgs: Seq::empty() }
    }

    /// The state after one more line. The login confirmation sets
    /// `logged_in`, a join confirmation names the channel, a message is
    /// appended to the inbox, and any other line changes nothing.
    pub open spec fn absorb(self, line: Seq<char>) -> ClientView {
        match parsed(line) {
            Some(LineView::LoggedIn) => ClientView { logged_in: true, ..self },
            Some(LineView::JoinChannel(name)) => ClientView { channel: Some(name), ..self },
            Some(LineView::PrivMsg(msg)) => ClientView {
                privmsgs: self.privmsgs.push(msg),
                ..self
            },
            _ => self,
        }
    }

    /// The state after the given lines, taken in order.
    pub open spec fn after(self, ls: Seq<Seq<char>>) -> ClientView
        decreases ls.len(),
    {
        if ls.len() == 0 {
            self
        } else {
            self.after(ls.drop_last()).absorb(ls.last())
        }
    }
}

/// What a read attempt that gave the lines `ls` comes to, for a wait on
/// `target`: the answers and notices of the lines taken in, and whether the
/// wait is over.
pub open spec fn turn_on(ls: Seq<Seq<char>>, target: Option<Event>) -> TurnView {
    let seen = ls.take(taken(ls, target) as int);
    TurnView { replies: replies(seen), notices: notices(seen), done: reached(ls, target) }
}

/// What a read attempt that gave nothing comes to, for a wait without a
/// class: the wait is over.
pub open spec fn turn_idle() -> TurnView {
    TurnView { replies: Seq::empty(), notices: Seq::empty(), done: true }
}

/// Whether a message with the body `text` is in the inbox.
pub open spec fn holds(inbox: Seq<PrivMsgView>, text: Seq<char>) -> bool {
    exists|i: int| 0 <= i < inbox.len() && (#[trigger] inbox[i]).content == text
}

/// What a search for a message with the body `text` leaves of the inbox. The
/// search goes from the newest message to the oldest, takes out each message
/// it looks at, and ends with the first whose body is `text`.
pub open spec fn sifted(inbox: Seq<PrivMsgView>, text: Seq<char>) -> Seq<PrivMsgView>
    decreases inbox.len(),
{
    if inbox.len() == 0 {
        inbox
    } else if inbox.last().content == text {
        inbox.drop_last()
    } else {
        sifted(inbox.drop_last(), text)
    }
}

/// `taken` is the one count that stops at the first line of the class waited
/// for, or at the end where there is none.
proof fn lemma_taken_is(ls: Seq<Seq<char>>, target: Option<Event>, k: int)
    requires
        0 <= k <= ls.len(),
        forall|j: int| 0 <= j < k - 1 ==> !hits(#[trigger] ls[j], target),
        k > 0 && hits(ls[k - 1], target) || k == ls.len() && (k > 0 ==> !hits(ls[k - 1], target)),
    ensures
        taken(ls, target) == k,
        reached(ls, target) == (k > 0 && hits(ls[k - 1], target)),
    decreases ls.len(),
{
    if ls.len() > 0 && !hits(ls[0], target) {
        lemma_taken_is(ls.drop_first(), target, k - 1);
    }
}

/// Every keepalive probe is answered with `PONG`, the probe's own argument
/// and the line's end, and has no other effect: it changes no state, is no
/// notice and ends no wait.
pub proof fn lemma_keepalive(c: ClientView, arg: Seq<char>, target: Option<Event>)
    ensures
        ({
            let line = "PING"@ + seq![' '] + arg;
            &&& reply_to(line) == Some("PONG "@ + arg + "\r\n"@)
            &&& c.absorb(line) == c
            &&& notice_in(line) is None
            &&& !hits(line, target)
        }),
{
    lemma_parsed_ping(arg);
}

/// What a client has reached it keeps: no line takes back the login or
/// leaves the client without a channel, and the inbox only grows at its end.
pub proof fn lemma_after_keeps(c: ClientView, ls: Seq<Seq<char>>)
    ensures
        c.logged_in ==> c.after(ls).logged_in,
        c.channel is Some ==> c.after(ls).channel is Some,
        c.privmsgs.is_prefix_of(c.after(ls).privmsgs),
    decreases ls.len(),
{
    if ls.len() > 0 {
        lemma_after_keeps(c, ls.drop_last());
    }
}

/// The search for an echo leaves the messages that are older than the newest
/// one with the body `text`, and nothing where there is none.
pub proof fn lemma_sifted(inbox: Seq<PrivMsgView>, text: Seq<char>)
    ensures
        ({
            let n = sifted(inbox, text).len() as int;
            &&& n <= inbox.len()
            &&& sifted(inbox, text) == inbox.take(n)
            &&& forall|j: int| n < j < inbox.len() ==> (#[trigger] inbox[j]).content != text
            &&& if holds(inbox, text) {
                n < inbox.len() && inbox[n].content == text
            } else {
                n == 0
            }
        }),
    decreases inbox.len(),
{
    if inbox.len() > 0 && inbox.last().content != text {
        let rest = inbox.drop_last();
        lemma_sifted(rest, text);
        let n = sifted(rest, text).len();
        assert forall|j: int| n < j < rest.len() implies (#[trigger] inbox[j]).content != text by {
            assert(rest[j].content != text);
        }
    }
}

impl DeepView for Client {
    type V = ClientView;

    closed spec fn deep_view(&self) -> ClientView {
        ClientView {
            channel: self.channel.deep_view(),
            logged_in: self.logged_in,
            privmsgs: self.privmsgs.deep_view(),
        }
    }
}

impl View for Client {
    type V = ClientView;

    open spec fn view(&self) -> ClientView {
        self.deep_view()
    }
}

impl Client {
    /// A client on whose connection nothing has arrived, and the wait that
    /// opens every connection: for the server's first notice.
    pub fn new() -> (r: (Client, Wait))
        ensures
            r.0@ == ClientView::fresh(),
            r.1 == (Wait { target: Some(Event::Notice), millis: SYNC_TIMEOUT_MILLIS }),
    {
        let client = Client { channel: None, logged_in: false, privmsgs: Vec::new() };
        assert(client.privmsgs.deep_view() == Seq::<PrivMsgView>::empty());
        (client, Client::sync(Some(Event::Notice)))
    }

    /// The wait of the usual length for an event of the given class.
    pub fn sync(target_event: Option<Event>) -> (w: Wait)
        ensures
            w == (Wait { target: target_event, millis: SYNC_TIMEOUT_MILLIS }),
    {
        Wait { target: target_event, millis: SYNC_TIMEOUT_MILLIS }
    }

    /// Whether the server has accepted the registration.
    pub fn logged_in(&self) -> (r: bool)
        ensures
            r == self@.logged_in,
    {
        self.logged_in
    }

    /// The channel joined, without its leading hash sign.
    pub fn channel(&self) -> (r: Option<&String>)
        ensures
            r.deep_view() == self@.channel,
    {
        self.channel.as_ref()
    }

    /// The registration under `nickname`: the commands to transmit, and the
    /// wait for the server to accept them.
    pub fn login(&self, nickname: &str) -> (r: Exchange)
        ensures
            r.command@ == login_command(nickname@),
            r.wait == (Wait { target: Some(Event::LoggedIn), millis: SYNC_TIMEOUT_MILLIS }),
    {
        let mut command = String::from_str("USER ");
        command.append(nickname);
        command.append(" ");
        command.append(nickname);
        command.append(" ");
        command.append(nickname);
        command.append(" :asciirc\r\nNICK ");
        command.append(nickname);
        command.append("\r\n");
        Exchange { command, wait: Client::sync(Some(Event::LoggedIn)) }
    }

    /// The request to join `channel`: the command to transmit, and the wait
    /// for the server to confirm it. Refused with `NotLoggedIn` exactly when
    /// the server has not accepted the registration.
    pub fn join_channel(&self, channel: &str) -> (r: Result<Exchange, Error>)
        ensures
            match r {
                Ok(exchange) => {
                    &&& self@.logged_in
                    &&& exchange.command@ == join_command(channel@)
                    &&& exchange.wait == (Wait {
                        target: Some(Event::JoinChannel),
                        millis: SYNC_TIMEOUT_MILLIS,
                    })
                },
                Err(e) => !self@.logged_in && e is NotLoggedIn,
            },
    {
        if !self.logged_in {
            return Err(Error::NotLoggedIn);
        }
        let mut command = String::from_str("JOIN #");
        command.append(channel);
        command.append("\r\n");
        Ok(Exchange { command, wait: Client::sync(Some(Event::JoinChannel)) })
    }

    /// The command that sends `message` to the channel joined, to transmit
    /// and flush. Refused with `NotLoggedIn` exactly when the server has not
    /// accepted the registration, and otherwise with `NoChannelJoined`
    /// exactly when no channel is joined.
    pub fn send_message(&self, message: &str) -> (r: Result<String, Error>)
        ensures
            match r {
                Ok(command) => {
                    &&& self@.logged_in
                    &&& self@.channel matches Some(channel)
                    &&& command@ == message_command(channel, message@)
                },
                Err(e) => if self@.logged_in {
                    self@.channel is None && e is NoChannelJoined
                } else {
                    e is NotLoggedIn
                },
            },
    {
        if !self.logged_in {
            return Err(Error::NotLoggedIn);
        }
        match &self.channel {
            Some(channel) => {
                let mut command = String::from_str("PRIVMSG #");
                command.append(channel.as_str());
                command.append(" :");
                command.append(message);
                command.append("\r\n");
                Ok(command)
            },
            None => Err(Error::NoChannelJoined),
        }
    }

    /// Takes the newest message out of the inbox.
    pub fn pop_newest(&mut self) -> (r: Option<PrivMsg>)
        ensures
            match r {
                Some(msg) => {
                    &&& old(self)@.privmsgs.len() > 0
                    &&& msg@ == old(self)@.privmsgs.last()
                    &&& final(self)@ == (ClientView {
                        privmsgs: old(self)@.privmsgs.drop_last(),
                        ..old(self)@
                    })
                },
                None => old(self)@.privmsgs.len() == 0 && final(self)@ == old(self)@,
            },
    {
        let r = self.privmsgs.pop();
        proof {
            if r is Some {
                assert(self.privmsgs.deep_view() == old(self).privmsgs.deep_view().drop_last());
            }
        }
        r
    }

    /// Searches the inbox for a message with the body `text`, from the
    /// newest to the oldest, and takes out each message it looks at. It ends
    /// with the first such message, or with the inbox empty.
    pub fn take_echo(&mut self, text: &String) -> (found: bool)
        ensures
            found == holds(old(self)@.privmsgs, text@),
            final(self)@ == (ClientView {
                privmsgs: sifted(old(self)@.privmsgs, text@),
                ..old(self)@
            }),
    {
        loop
            invariant
                self@.channel == old(self)@.channel,
                self@.logged_in == old(self)@.logged_in,
                holds(self@.privmsgs, text@) == holds(old(self)@.privmsgs, text@),
                sifted(self@.privmsgs, text@) == sifted(old(self)@.privmsgs, text@),
            decreases self@.privmsgs.len(),
        {
            let ghost before = self@.privmsgs;
            match self.pop_newest() {
                None => {
                    return false;
                },
                Some(msg) => {
                    if msg.content == *text {
                        return true;
                    }
                    proof {
                        if holds(before, text@) {
                            let i = choose|i: int|
                                0 <= i < before.len() && (#[trigger] before[i]).content == text@;
                            assert(before.drop_last()[i].content == text@);
                        }
                    }
                },
            }
        }
    }

    /// One read attempt of a wait for an event of the class `target_event`.
    /// `received` holds the bytes that the attempt gave, or nothing if it
    /// gave none in time.
    ///
    /// Bytes that are not well-formed UTF-8 are refused with `InvalidString`
    /// and change nothing. Otherwise their lines are taken in order, up to
    /// and including the first that is an event of the class waited for;
    /// what follows it in the same bytes is left unread. Each line taken in
    /// has its effect on the state, whatever its class.
    ///
    /// With no bytes, a wait for a class has failed with `Timeout`, and a wait
    /// without one is over.
    pub fn sync_with_timeout(&mut self, target_event: Option<Event>, received: Option<&[u8]>) -> (r:
        Result<Turn, Error>)
        ensures
            match received {
                Some(bytes) => match r {
                    Ok(turn) => {
                        let ls = lines(decode_utf8(bytes@));
                        &&& valid_utf8(bytes@)
                        &&& turn@ == turn_on(ls, target_event)
                        &&& final(self)@ == old(self)@.after(
                            ls.take(taken(ls, target_event) as int),
                        )
                    },
                    Err(e) => !valid_utf8(bytes@) && e is InvalidString && final(self)@ == old(
                        self,
                    )@,
                },
                None => final(self)@ == old(self)@ && match r {
                    Ok(turn) => target_event is None && turn@ == turn_idle(),
                    Err(e) => target_event is Some && e is Timeout,
                },
            },
    {
        let bytes = match received {
            Some(bytes) => bytes,
            None => {
                return match target_event {
                    Some(_) => Err(Error::Timeout),
                    None => {
                        let turn = Turn { replies: Vec::new(), notices: Vec::new(), done: true };
                        assert(turn.notices.deep_view() == Seq::<Seq<char>>::empty());
                        Ok(turn)
                    },
                };
            },
        };
        let text = match decode(bytes) {
            Ok(text) => text,
            Err(e) => {
                return Err(Error::InvalidString(e));
            },
        };
        let spans = line_spans(text.as_slice());
        let ghost ls = lines(text@);
        let mut replies: Vec<String> = Vec::new();
        let mut notices: Vec<String> = Vec::new();
        let mut done = false;
        let mut k: usize = 0;
        while k < spans.len() && !done
            invariant
                k <= spans.len(),
                spans_within(spans@, text@.len()),
                pieces(text@, spans@) == ls,
                self@ == old(self)@.after(ls.take(k as int)),
                replies.deep_view() == self::replies(ls.take(k as int)),
                notices.deep_view() == self::notices(ls.take(k as int)),
                forall|j: int| 0 <= j < k - 1 ==> !hits(#[trigger] ls[j], target_event),
                done == (k > 0 && hits(ls[k - 1], target_event)),
            decreases spans.len() - k,
        {
            let (from, to) = spans[k];
            let line = slice_subrange(text.as_slice(), from, to);
            let ghost old_inbox = self.privmsgs.deep_view();
            assert(ls.take(k + 1).drop_last() == ls.take(k as int));
            match Line::of_chars(line) {
                None => {},
                Some(read) => {
                    done = is_target(read.event(), target_event);
                    match read {
                        Line::Ping(arg) => {
                            let mut reply = String::from_str("PONG ");
                            reply.append(arg.as_str());
                            reply.append("\r\n");
                            replies.push(reply);
                        },
                        Line::Notice(text) => {
                            notices.push(text);
                        },
                        Line::LoggedIn => {
                            self.logged_in = true;
                        },
                        Line::JoinChannel(name) => {
                            self.channel = Some(name);
                        },
                        Line::PrivMsg(msg) => {
                            let ghost m = msg@;
                            self.privmsgs.push(msg);
                            assert(self.privmsgs.deep_view() == old_inbox.push(m));
                        },
                    }
                },
            }
            k += 1;
        }
        proof {
            lemma_taken_is(ls, target_event, k as int);
        }
        let turn = Turn { replies, notices, done };
        Ok(turn)
    }
}

/// Whether an event of the class `event` ends a wait for `target`.
fn is_target(event: Option<Event>, target: Option<Event>) -> (r: bool)
    ensures
        r == (event is Some && event == target),
{
    match (event, target) {
        (Some(a), Some(b)) => a == b,
        _ => false,
    }
}

} // verus!
