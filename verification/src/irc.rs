//! The vocabulary of the protocol: event classes, messages, errors, and the
//! reading of one received line.

use vstd::prelude::*;
use vstd::slice::slice_subrange;
use crate::text::{chars_of, find, is_word, skip_leading, split_once, string_of, trim_start};
use crate::text::{
    lemma_first_index, lemma_split_once_joined, lemma_trim_start_step,
};

verus! {

/// `std::io::Error`, carried through unread.
#[verifier::external_type_specification]
#[verifier::external_body]
pub struct ExIoError(std::io::Error);

/// The classes of server lines that a client reacts to.
#[derive(Debug, PartialEq, Eq, Structural, Clone, Copy)]
pub enum Event {
    Notice,
    LoggedIn,
    JoinChannel,
    PrivMsg,
}

/// What can go wrong between a client and its server.
#[derive(Debug)]
pub enum Error {
    Flush(std::io::Error),
    InvalidEvent,
    InvalidString(std::str::Utf8Error),
    NoChannelJoined,
    NotLoggedIn,
    Send(std::io::Error),
    Timeout,
}

/// A message that somebody sent to the channel or to the client.
#[derive(Debug, PartialEq, Eq)]
pub struct PrivMsg {
    pub source: String,
    pub content: String,
}

/// A `PrivMsg` as plain text.
pub struct PrivMsgView {
    pub source: Seq<char>,
    pub content: Seq<char>,
}

impl DeepView for PrivMsg {
    type V = PrivMsgView;

    open spec fn deep_view(&self) -> PrivMsgView {
        PrivMsgView { source: self.source@, content: self.content@ }
    }
}

impl View for PrivMsg {
    type V = PrivMsgView;

    open spec fn view(&self) -> PrivMsgView {
        self.deep_view()
    }
}

/// One server line, read: the keepalive probe, or an event with what it
/// carries.
#[derive(Debug, PartialEq, Eq)]
pub enum Line {
    /// A keepalive probe and its argument.
    Ping(String),
    /// An informational notice and its text.
    Notice(String),
    /// The server accepted the registration.
    LoggedIn,
    /// The server confirmed a join; the channel's name without its markers.
    JoinChannel(String),
    /// A message.
    PrivMsg(PrivMsg),
}

/// A `Line` as plain text.
pub enum LineView {
    Ping(Seq<char>),
    Notice(Seq<char>),
    LoggedIn,
    JoinChannel(Seq<char>),
    PrivMsg(PrivMsgView),
}

impl DeepView for Line {
    type V = LineView;

    open spec fn deep_view(&self) -> LineView {
        match self {
            Line::Ping(arg) => LineView::Ping(arg@),
            Line::Notice(text) => LineView::Notice(text@),
            Line::LoggedIn => LineView::LoggedIn,
            Line::JoinChannel(name) => LineView::JoinChannel(name@),
            Line::PrivMsg(msg) => LineView::PrivMsg(msg@),
        }
    }
}

impl View for Line {
    type V = LineView;

    open spec fn view(&self) -> LineView {
        self.deep_view()
    }
}

impl LineView {
    /// The class of event that the line is, if it is one. The keepalive probe
    /// is none.
    pub open spec fn event(self) -> Option<Event> {
        match self {
            LineView::Ping(_) => None,
            LineView::Notice(_) => Some(Event::Notice),
            LineView::LoggedIn => Some(Event::LoggedIn),
            LineView::JoinChannel(_) => Some(Event::JoinChannel),
            LineView::PrivMsg(_) => Some(Event::PrivMsg),
        }
    }
}

/// The event class that a command word names.
pub open spec fn event_named(word: Seq<char>) -> Option<Event> {
    if word == "NOTICE"@ {
        Some(Event::Notice)
    } else if word == "JOIN"@ {
        Some(Event::JoinChannel)
    } else if word == "PRIVMSG"@ {
        Some(Event::PrivMsg)
    } else if word == "001"@ {
        Some(Event::LoggedIn)
    } else {
        None
    }
}

/// The channel that the parameters of a join confirmation name: what follows
/// the leading colons and, after them, the leading hash signs.
pub open spec fn channel_named(params: Seq<char>) -> Seq<char> {
    trim_start(trim_start(params, ':'), '#')
}

/// The message in a line with the given prefix and parameters. The sender is
/// what stands in the prefix between its first character and the first
/// exclamation mark. The body is what follows the first space of the
/// parameters, less its first character. Where either has no first character
/// to leave out, or a separator is missing, there is no message.
pub open spec fn message_in(prefix: Seq<char>, params: Seq<char>) -> Option<PrivMsgView> {
    match (split_once(prefix, '!'), split_once(params, ' ')) {
        (Some((who, _)), Some((_, body))) => if who.len() > 0 && body.len() > 0 {
            Some(PrivMsgView { source: who.drop_first(), content: body.drop_first() })
        } else {
            None
        },
        _ => None,
    }
}

/// What a line says. A line is a first word, a space and the rest. After the
/// first word `PING` the rest is the probe's argument. Otherwise the first
/// word is the prefix and the rest a command word, a space and parameters.
/// Any other line says nothing.
pub open spec fn parsed(line: Seq<char>) -> Option<LineView> {
    match split_once(line, ' ') {
        None => None,
        Some((head, rest)) => if head == "PING"@ {
            Some(LineView::Ping(rest))
        } else {
            match split_once(rest, ' ') {
                None => None,
                Some((word, params)) => match event_named(word) {
                    None => None,
                    Some(Event::Notice) => Some(LineView::Notice(params)),
                    Some(Event::LoggedIn) => Some(LineView::LoggedIn),
                    Some(Event::JoinChannel) => Some(LineView::JoinChannel(channel_named(params))),
                    Some(Event::PrivMsg) => match message_in(head, params) {
                        Some(msg) => Some(LineView::PrivMsg(msg)),
                        None => None,
                    },
                },
            }
        },
    }
}

/// A line of the server: a prefix, a command word and parameters, with one
/// space between each two.
pub open spec fn server_line(prefix: Seq<char>, word: Seq<char>, params: Seq<char>) -> Seq<char> {
    prefix + seq![' '] + word + seq![' '] + params
}

/// The prefix of a line that a user caused: a colon, the user's name, an
/// exclamation mark and the user's address.
pub open spec fn user_prefix(nick: Seq<char>, address: Seq<char>) -> Seq<char> {
    seq![':'] + nick + seq!['!'] + address
}

/// Whether `prefix` can open a line of the server: it holds no space and is
/// not the word of the keepalive probe.
pub open spec fn is_prefix(prefix: Seq<char>) -> bool {
    !prefix.contains(' ') && prefix != "PING"@
}

/// A line of the server is read by its command word.
proof fn lemma_server_line(prefix: Seq<char>, word: Seq<char>, params: Seq<char>)
    requires
        is_prefix(prefix),
        !word.contains(' '),
    ensures
        parsed(server_line(prefix, word, params)) == match event_named(word) {
            None => None,
            Some(Event::Notice) => Some(LineView::Notice(params)),
            Some(Event::LoggedIn) => Some(LineView::LoggedIn),
            Some(Event::JoinChannel) => Some(LineView::JoinChannel(channel_named(params))),
            Some(Event::PrivMsg) => match message_in(prefix, params) {
                Some(msg) => Some(LineView::PrivMsg(msg)),
                None => None,
            },
        },
{
    let rest = word + seq![' '] + params;
    assert(server_line(prefix, word, params) == prefix + seq![' '] + rest);
    lemma_split_once_joined(prefix, ' ', rest);
    lemma_split_once_joined(word, ' ', params);
}

/// The four command words hold no space, and each names its own class.
proof fn lemma_words()
    ensures
        !"NOTICE"@.contains(' '),
        !"JOIN"@.contains(' '),
        !"PRIVMSG"@.contains(' '),
        !"001"@.contains(' '),
        event_named("NOTICE"@) == Some(Event::Notice),
        event_named("JOIN"@) == Some(Event::JoinChannel),
        event_named("PRIVMSG"@) == Some(Event::PrivMsg),
        event_named("001"@) == Some(Event::LoggedIn),
{
    reveal_strlit("NOTICE");
    reveal_strlit("JOIN");
    reveal_strlit("PRIVMSG");
    reveal_strlit("001");
}

/// Every keepalive probe is read as one, with all that follows its first
/// space as the argument.
pub proof fn lemma_parsed_ping(arg: Seq<char>)
    ensures
        parsed("PING"@ + seq![' '] + arg) == Some(LineView::Ping(arg)),
{
    reveal_strlit("PING");
    lemma_split_once_joined("PING"@, ' ', arg);
}

/// Every notice is read as one, with its parameters as the text.
pub proof fn lemma_parsed_notice(prefix: Seq<char>, text: Seq<char>)
    requires
        is_prefix(prefix),
    ensures
        parsed(server_line(prefix, "NOTICE"@, text)) == Some(LineView::Notice(text)),
{
    lemma_words();
    lemma_server_line(prefix, "NOTICE"@, text);
}

/// Every login confirmation is read as one, whatever its parameters.
pub proof fn lemma_parsed_logged_in(prefix: Seq<char>, params: Seq<char>)
    requires
        is_prefix(prefix),
    ensures
        parsed(server_line(prefix, "001"@, params)) == Some(LineView::LoggedIn),
{
    lemma_words();
    lemma_server_line(prefix, "001"@, params);
}

/// Every join confirmation is read as one, and names the channel without
/// the colon and the hash sign that stand before it.
pub proof fn lemma_parsed_join(prefix: Seq<char>, name: Seq<char>)
    requires
        is_prefix(prefix),
        name.len() == 0 || name[0] != '#',
    ensures
        parsed(server_line(prefix, "JOIN"@, seq![':', '#'] + name)) == Some(
            LineView::JoinChannel(name),
        ),
{
    lemma_words();
    let params = seq![':', '#'] + name;
    lemma_server_line(prefix, "JOIN"@, params);
    assert(params == seq![':'] + (seq!['#'] + name));
    lemma_trim_start_step(seq!['#'] + name, ':');
    lemma_trim_start_step(name, '#');
}

/// Every message of a user to a target is read as one: its sender is the
/// user's name and its content the body after the colon.
pub proof fn lemma_parsed_privmsg(
    nick: Seq<char>,
    address: Seq<char>,
    target: Seq<char>,
    body: Seq<char>,
)
    requires
        !nick.contains(' '),
        !nick.contains('!'),
        !address.contains(' '),
        !target.contains(' '),
    ensures
        parsed(
            server_line(user_prefix(nick, address), "PRIVMSG"@, target + seq![' ', ':'] + body),
        ) == Some(LineView::PrivMsg(PrivMsgView { source: nick, content: body })),
{
    lemma_words();
    reveal_strlit("PING");
    let prefix = user_prefix(nick, address);
    let params = target + seq![' ', ':'] + body;
    let who = seq![':'] + nick;
    assert(!prefix.contains(' '));
    assert(!who.contains('!'));
    lemma_server_line(prefix, "PRIVMSG"@, params);
    lemma_split_once_joined(who, '!', address);
    assert(params == target + seq![' '] + (seq![':'] + body));
    lemma_split_once_joined(target, ' ', seq![':'] + body);
    assert(who.drop_first() == nick);
    assert((seq![':'] + body).drop_first() == body);
}

impl Event {
    /// The event class that the command word `s` names; `InvalidEvent` for
    /// any other word.
    pub fn from_str(s: &str) -> (r: Result<Event, Error>)
        ensures
            match r {
                Ok(e) => event_named(s@) == Some(e),
                Err(e) => event_named(s@) is None && e is InvalidEvent,
            },
    {
        let word = chars_of(s);
        match event_of_word(word.as_slice()) {
            Some(e) => Ok(e),
            None => Err(Error::InvalidEvent),
        }
    }
}

impl std::str::FromStr for Event {
    type Err = Error;

    fn from_str(s: &str) -> (r: Result<Event, Error>)
        ensures
            match r {
                Ok(e) => event_named(s@) == Some(e),
                Err(e) => event_named(s@) is None && e is InvalidEvent,
            },
    {
        Event::from_str(s)
    }
}

/// The event class that the command word names, if any.
fn event_of_word(word: &[char]) -> (r: Option<Event>)
    ensures
        r == event_named(word@),
{
    if is_word(word, "NOTICE") {
        Some(Event::Notice)
    } else if is_word(word, "JOIN") {
        Some(Event::JoinChannel)
    } else if is_word(word, "PRIVMSG") {
        Some(Event::PrivMsg)
    } else if is_word(word, "001") {
        Some(Event::LoggedIn)
    } else {
        None
    }
}

/// The two parts of `s` around the first `sep`.
fn cut(s: &[char], sep: char) -> (r: Option<(&[char], &[char])>)
    ensures
        match r {
            Some((a, b)) => split_once(s@, sep) == Some((a@, b@)),
            None => split_once(s@, sep) is None,
        },
{
    let i = find(s, sep);
    proof {
        lemma_first_index(s@, sep);
    }
    if i < s.len() {
        Some((slice_subrange(s, 0, i), slice_subrange(s, i + 1, s.len())))
    } else {
        None
    }
}

/// The message in a line with the given prefix and parameters.
fn message_of(prefix: &[char], params: &[char]) -> (r: Option<PrivMsg>)
    ensures
        r.deep_view() == message_in(prefix@, params@),
{
    match (cut(prefix, '!'), cut(params, ' ')) {
        (Some((who, _)), Some((_, body))) => {
            if who.len() > 0 && body.len() > 0 {
                Some(
                    PrivMsg {
                        source: string_of(slice_subrange(who, 1, who.len())),
                        content: string_of(slice_subrange(body, 1, body.len())),
                    },
                )
            } else {
                None
            }
        },
        _ => None,
    }
}

impl Line {
    /// Reads one line of characters.
    pub fn of_chars(line: &[char]) -> (r: Option<Line>)
        ensures
            r.deep_view() == parsed(line@),
    {
        let (head, rest) = match cut(line, ' ') {
            Some(parts) => parts,
            None => {
                return None;
            },
        };
        if is_word(head, "PING") {
            return Some(Line::Ping(string_of(rest)));
        }
        let (word, params) = match cut(rest, ' ') {
            Some(parts) => parts,
            None => {
                return None;
            },
        };
        match event_of_word(word) {
            None => None,
            Some(Event::Notice) => Some(Line::Notice(string_of(params))),
            Some(Event::LoggedIn) => Some(Line::LoggedIn),
            Some(Event::JoinChannel) => {
                let name = skip_leading(skip_leading(params, ':'), '#');
                Some(Line::JoinChannel(string_of(name)))
            },
            Some(Event::PrivMsg) => match message_of(head, params) {
                Some(msg) => Some(Line::PrivMsg(msg)),
                None => None,
            },
        }
    }

    /// Reads one line, given without its terminator.
    pub fn parse(line: &str) -> (r: Option<Line>)
        ensures
            r.deep_view() == parsed(line@),
    {
        let chars = chars_of(line);
        Line::of_chars(chars.as_slice())
    }

    /// The class of event that the line is, if it is one.
    pub fn event(&self) -> (r: Option<Event>)
        ensures
            r == self@.event(),
    {
        match self {
            Line::Ping(_) => None,
            Line::Notice(_) => Some(Event::Notice),
            Line::LoggedIn => Some(Event::LoggedIn),
            Line::JoinChannel(_) => Some(Event::JoinChannel),
            Line::PrivMsg(_) => Some(Event::PrivMsg),
        }
    }
}

} // verus!
