//! From a command in the channel to its lines on the wire: who may command,
//! and which client sends which line when.
//!
//! A payload's lines go out over a pool of clients in turn, so that line `i`
//! is sent by client `i` modulo the size of the pool. Before a client sends
//! again it looks for the echo of the line it sent last, and waits for it no
//! longer than one timeout.

use vstd::prelude::*;
use vstd::slice::slice_subrange;
use vstd::string::StringExecFns;
use crate::client::{holds, sifted, Client, ClientView, Wait};
use crate::irc::{Error, Event, PrivMsgView};
use crate::text::{chars_of, line_spans, lines, pieces, spans_within, string_of};

verus! {

/// The index of the client that listens for commands.
pub const LISTENER: usize = 0;

/// How long one wait for a command lasts, in milliseconds.
pub const LISTEN_TIMEOUT_MILLIS: u64 = 10_000;

/// The wait for a command: for a message, no longer than the listening
/// timeout.
pub fn listen() -> (w: Wait)
    ensures
        w == (Wait { target: Some(Event::PrivMsg), millis: LISTEN_TIMEOUT_MILLIS }),
{
    Wait { target: Some(Event::PrivMsg), millis: LISTEN_TIMEOUT_MILLIS }
}

/// Whether `name` is one of `owners`.
pub fn is_owner(owners: &Vec<String>, name: &String) -> (r: bool)
    ensures
        r == owners.deep_view().contains(name@),
{
    let mut i: usize = 0;
    while i < owners.len()
        invariant
            i <= owners.len(),
            forall|j: int| 0 <= j < i ==> owners.deep_view()[j] != name@,
        decreases owners.len() - i,
    {
        if owners[i] == *name {
            assert(owners.deep_view()[i as int] == name@);
            return true;
        }
        i += 1;
    }
    false
}

/// The command that the inbox holds for a listener who obeys `owners`: the
/// body of the newest message, if one of them sent it.
pub open spec fn command_in(inbox: Seq<PrivMsgView>, owners: Seq<Seq<char>>) -> Option<Seq<char>> {
    if inbox.len() > 0 && owners.contains(inbox.last().source) {
        Some(inbox.last().content)
    } else {
        None
    }
}

/// The inbox without its newest message.
pub open spec fn without_newest(inbox: Seq<PrivMsgView>) -> Seq<PrivMsgView> {
    if inbox.len() > 0 {
        inbox.drop_last()
    } else {
        inbox
    }
}

/// Takes the newest message out of the client's inbox and gives its body,
/// the locator of a payload, if one of `owners` sent it. A message of anyone
/// else is taken out and dropped.
pub fn accept_command(client: &mut Client, owners: &Vec<String>) -> (r: Option<String>)
    ensures
        r.deep_view() == command_in(old(client)@.privmsgs, owners.deep_view()),
        final(client)@ == (ClientView {
            privmsgs: without_newest(old(client)@.privmsgs),
            ..old(client)@
        }),
{
    match client.pop_newest() {
        Some(msg) => {
            if is_owner(owners, &msg.source) {
                Some(msg.content)
            } else {
                None
            }
        },
        None => None,
    }
}

/// Nobody but an owner commands: whatever else the inbox holds, a newest
/// message from someone who is not among the owners yields no command.
pub proof fn lemma_stranger_ignored(inbox: Seq<PrivMsgView>, owners: Seq<Seq<char>>)
    requires
        inbox.len() > 0,
        !owners.contains(inbox.last().source),
    ensures
        command_in(inbox, owners) is None,
{
}

/// The lines of a payload, given as the text of its file.
pub fn payload_lines(content: &str) -> (r: Vec<String>)
    ensures
        r.deep_view() == lines(content@),
{
    let text = chars_of(content);
    let spans = line_spans(text.as_slice());
    let mut r: Vec<String> = Vec::new();
    let mut k: usize = 0;
    while k < spans.len()
        invariant
            k <= spans.len(),
            spans_within(spans@, text@.len()),
            r.deep_view() == pieces(text@, spans@).take(k as int),
        decreases spans.len() - k,
    {
        let (from, to) = spans[k];
        let line = string_of(slice_subrange(text.as_slice(), from, to));
        let ghost all = pieces(text@, spans@);
        r.push(line);
        assert(all.take(k + 1) == all.take(k as int).push(all[k as int]));
        k += 1;
    }
    r
}

/// What a line is sent as: itself, or one space where it is empty, since the
/// wire cannot carry an empty body.
pub open spec fn wire_text(line: Seq<char>) -> Seq<char> {
    if line.len() == 0 {
        " "@
    } else {
        line
    }
}

/// What has happened since the dispatch last named an action.
#[derive(Debug, PartialEq, Eq, Structural, Clone, Copy)]
pub enum Signal {
    /// The action was carried out, or the wait ended before its timeout.
    Resume,
    /// The wait ran into its timeout.
    TimedOut,
}

impl Signal {
    /// What came of a wait that the dispatch called for: a timeout if it
    /// failed with `Timeout`, and no more than the time to look again if it
    /// ended in any other way.
    pub fn after_wait(waited: &Result<(), Error>) -> (r: Signal)
        ensures
            r == if waited matches Err(e) && e is Timeout {
                Signal::TimedOut
            } else {
                Signal::Resume
            },
    {
        match waited {
            Err(Error::Timeout) => Signal::TimedOut,
            _ => Signal::Resume,
        }
    }
}

/// What the dispatch wants done next.
#[derive(Debug, PartialEq, Eq)]
pub enum Action {
    /// Carry out `wait` on the client `session`.
    Await { session: usize, wait: Wait },
    /// Send `text` through the client `session`.
    Send { session: usize, text: String },
    /// Nothing: every line has been sent.
    Finished,
}

/// An `Action` as plain values.
pub enum ActionView {
    Await { session: int, wait: Wait },
    Send { session: int, text: Seq<char> },
    Finished,
}

impl DeepView for Action {
    type V = ActionView;

    open spec fn deep_view(&self) -> ActionView {
        match self {
            Action::Await { session, wait } => ActionView::Await {
                session: *session as int,
                wait: *wait,
            },
            Action::Send { session, text } => ActionView::Send {
                session: *session as int,
                text: text@,
            },
            Action::Finished => ActionView::Finished,
        }
    }
}

impl View for Action {
    type V = ActionView;

    open spec fn view(&self) -> ActionView {
        self.deep_view()
    }
}

/// The sending of one payload over a pool of clients, line by line.
#[derive(Debug)]
pub struct Dispatch {
    lines: Vec<String>,
    width: usize,
    next: usize,
    millis: u64,
}

/// A `Dispatch` as plain values.
pub struct DispatchView {
    /// The payload.
    pub lines: Seq<Seq<char>>,
    /// The number of clients in the pool.
    pub width: int,
    /// The index of the line to send next; that many lines have been sent.
    pub next: int,
    /// The longest that a wait for an echo lasts, in milliseconds.
    pub millis: u64,
}

impl DispatchView {
    /// A pool has at least one client, and no more lines are sent than the
    /// payload has.
    pub open spec fn wf(self) -> bool {
        self.width >= 1 && 0 <= self.next <= self.lines.len()
    }

    /// The client that sends line `i`.
    pub open spec fn sender_of(self, i: int) -> int {
        i % self.width
    }

    /// The client whose turn it is.
    pub open spec fn sender(self) -> int {
        self.sender_of(self.next)
    }

    /// Whether line `i` has to wait for an echo: there is more than one
    /// client, its sender has sent a line before, and that line was not
    /// empty.
    pub open spec fn gated(self, i: int) -> bool {
        self.width > 1 && i >= self.width && self.lines[i - self.width].len() > 0
    }

    /// The state after one more line has been sent.
    pub open spec fn advanced(self) -> DispatchView {
        DispatchView { next: self.next + 1, ..self }
    }

    /// The wait for an echo: for a message, no longer than the timeout of
    /// a line.
    pub open spec fn echo_wait(self) -> Wait {
        Wait { target: Some(Event::PrivMsg), millis: self.millis }
    }

    /// The line to send next, as an action.
    pub open spec fn send(self) -> ActionView {
        ActionView::Send { session: self.sender(), text: wire_text(self.lines[self.next]) }
    }

    /// One decision: the state after it, what it leaves of the inbox of the
    /// client whose turn it is, and the action it names.
    ///
    /// With every line sent, nothing is left to do. A line that has to wait
    /// for an echo is sent at once after a timeout. Otherwise the inbox is
    /// searched for the echo, newest message first: if it is there the line
    /// is sent, if not a wait is called for. Any other line is sent at once.
    pub open spec fn step(self, inbox: Seq<PrivMsgView>, signal: Signal) -> (
        DispatchView,
        Seq<PrivMsgView>,
        ActionView,
    ) {
        if self.next >= self.lines.len() {
            (self, inbox, ActionView::Finished)
        } else if self.gated(self.next) && signal is Resume {
            let echo = self.lines[self.next - self.width];
            if holds(inbox, echo) {
                (self.advanced(), sifted(inbox, echo), self.send())
            } else {
                (
                    self,
                    sifted(inbox, echo),
                    ActionView::Await { session: self.sender(), wait: self.echo_wait() },
                )
            }
        } else {
            (self.advanced(), inbox, self.send())
        }
    }
}

/// The action that the last of `steps + 1` decisions in a row names, where
/// every wait runs into its timeout. The inbox of the client whose turn it
/// is holds `inboxes(k)` at the decision that `k` more follow.
pub open spec fn last_action(
    d: DispatchView,
    signal: Signal,
    inboxes: spec_fn(nat) -> Seq<PrivMsgView>,
    steps: nat,
) -> ActionView
    decreases steps,
{
    let (state, _, action) = d.step(inboxes(steps), signal);
    if steps == 0 {
        action
    } else {
        let next = if action is Await {
            Signal::TimedOut
        } else {
            Signal::Resume
        };
        last_action(state, next, inboxes, (steps - 1) as nat)
    }
}

/// Line `i` is sent by client `i` modulo the size of the pool, whatever has
/// arrived and whether or not a wait ran into its timeout. A decision that
/// sends, sends the first line not yet sent, as it goes over the wire and
/// through that client, and counts it; a decision that does not send counts
/// nothing. No decision changes the payload or the size of the pool.
pub proof fn lemma_dispatch_mapping(d: DispatchView, inbox: Seq<PrivMsgView>, signal: Signal)
    requires
        d.wf(),
    ensures
        ({
            let (state, _, action) = d.step(inbox, signal);
            &&& state.wf()
            &&& state == DispatchView { next: state.next, ..d }
            &&& 0 <= d.sender() < d.width
            &&& match action {
                ActionView::Send { session, text } => {
                    &&& d.next < d.lines.len()
                    &&& session == d.sender_of(d.next)
                    &&& text == wire_text(d.lines[d.next])
                    &&& state.next == d.next + 1
                },
                ActionView::Await { session, wait } => {
                    &&& session == d.sender_of(d.next)
                    &&& wait == d.echo_wait()
                    &&& state == d
                },
                ActionView::Finished => state == d && d.next == d.lines.len(),
            }
        }),
{
    assert(0 <= d.next % d.width < d.width) by (nonlinear_arith)
        requires
            d.width >= 1,
    ;
}

/// With one client in the pool no line waits: the dispatch never calls for
/// a wait, and never looks into the inbox.
pub proof fn lemma_single_client_never_waits(
    d: DispatchView,
    inbox: Seq<PrivMsgView>,
    signal: Signal,
)
    requires
        d.wf(),
        d.width == 1,
    ensures
        !(d.step(inbox, signal).2 is Await),
        d.step(inbox, signal).1 == inbox,
{
}

/// An empty line goes over the wire as one space, and the line that the same
/// client sends after it waits for no echo: it is sent at once, and the
/// inbox is not looked into.
pub proof fn lemma_blank_line(d: DispatchView, inbox: Seq<PrivMsgView>, signal: Signal)
    requires
        d.wf(),
        d.next < d.lines.len(),
    ensures
        wire_text(Seq::empty()) == seq![' '],
        d.next >= d.width && d.lines[d.next - d.width].len() == 0 ==> d.step(inbox, signal) == (
            d.advanced(),
            inbox,
            d.send(),
        ),
{
    reveal_strlit(" ");
}

/// A wait that ran into its timeout is not repeated: the line is sent at
/// once, whatever the inbox holds.
pub proof fn lemma_timeout_sends(d: DispatchView, inbox: Seq<PrivMsgView>)
    requires
        d.wf(),
        d.next < d.lines.len(),
    ensures
        d.step(inbox, Signal::TimedOut) == (d.advanced(), inbox, d.send()),
{
}

/// After a wait that ran into its timeout, one decision fewer is enough.
proof fn lemma_completes_from(
    d: DispatchView,
    signal: Signal,
    inboxes: spec_fn(nat) -> Seq<PrivMsgView>,
    steps: nat,
)
    requires
        d.wf(),
        steps + (if signal is TimedOut { 1int } else { 0int }) >= 2 * (d.lines.len() - d.next),
    ensures
        last_action(d, signal, inboxes, steps) is Finished,
    decreases steps,
{
    let (state, _, action) = d.step(inboxes(steps), signal);
    lemma_dispatch_mapping(d, inboxes(steps), signal);
    if steps > 0 {
        let next = if action is Await {
            Signal::TimedOut
        } else {
            Signal::Resume
        };
        lemma_completes_from(state, next, inboxes, (steps - 1) as nat);
    }
}

/// A dispatch comes to its end even if no echo ever arrives: where every
/// wait runs into its timeout, two decisions for each line still to send are
/// enough, whatever the inboxes hold, and the decision after them finds
/// nothing left to do.
pub proof fn lemma_completes(
    d: DispatchView,
    signal: Signal,
    inboxes: spec_fn(nat) -> Seq<PrivMsgView>,
    steps: nat,
)
    requires
        d.wf(),
        steps >= 2 * (d.lines.len() - d.next),
    ensures
        last_action(d, signal, inboxes, steps) is Finished,
{
    lemma_completes_from(d, signal, inboxes, steps);
}

impl DeepView for Dispatch {
    type V = DispatchView;

    closed spec fn deep_view(&self) -> DispatchView {
        DispatchView {
            lines: self.lines.deep_view(),
            width: self.width as int,
            next: self.next as int,
            millis: self.millis,
        }
    }
}

impl View for Dispatch {
    type V = DispatchView;

    open spec fn view(&self) -> DispatchView {
        self.deep_view()
    }
}

impl Dispatch {
    #[verifier::type_invariant]
    spec fn inv(self) -> bool {
        self.width >= 1 && self.next <= self.lines.len()
    }

    /// The dispatch of the payload `lines` over `sessions` clients, none of
    /// its lines sent yet, where a wait for an echo lasts no longer than
    /// `line_timeout` milliseconds.
    pub fn new(lines: Vec<String>, sessions: usize, line_timeout: u64) -> (r: Dispatch)
        requires
            sessions >= 1,
        ensures
            r@ == (DispatchView {
                lines: lines.deep_view(),
                width: sessions as int,
                next: 0,
                millis: line_timeout,
            }),
            r@.wf(),
    {
        Dispatch { lines, width: sessions, next: 0, millis: line_timeout }
    }

    /// One decision of the dispatch, for a pool of as many clients as it was
    /// made for. `signal` tells what came of the action named before.
    ///
    /// Only the inbox of the client whose turn it is can change, and it does
    /// only by the search for an echo.
    pub fn step(&mut self, pool: &mut Vec<Client>, signal: Signal) -> (action: Action)
        requires
            old(pool)@.len() == old(self)@.width,
        ensures
            old(self)@.wf(),
            final(self)@.wf(),
            final(pool)@.len() == old(pool)@.len(),
            forall|s: int|
                0 <= s < old(pool)@.len() && s != old(self)@.sender() ==> final(pool)@[s] == old(
                    pool,
                )@[s],
            ({
                let s = old(self)@.sender();
                let (state, inbox, named) = old(self)@.step(old(pool)@[s]@.privmsgs, signal);
                &&& final(self)@ == state
                &&& action@ == named
                &&& final(pool)@[s]@ == (ClientView { privmsgs: inbox, ..old(pool)@[s]@ })
            }),
    {
        proof {
            use_type_invariant(&*self);
        }
        if self.next >= self.lines.len() {
            return Action::Finished;
        }
        let session = self.next % self.width;
        if self.width > 1 && self.next >= self.width && signal == Signal::Resume {
            let echo = &self.lines[self.next - self.width];
            if !echo.as_str().is_empty() {
                if !pool[session].take_echo(echo) {
                    let wait = Wait { target: Some(Event::PrivMsg), millis: self.millis };
                    return Action::Await { session, wait };
                }
            }
        }
        let line = &self.lines[self.next];
        let text = if line.as_str().is_empty() {
            String::from_str(" ")
        } else {
            line.clone()
        };
        self.next += 1;
        Action::Send { session, text }
    }
}

} // verus!
