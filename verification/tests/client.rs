use asciirc::client::{Client, Exchange, Turn, Wait, SYNC_TIMEOUT_MILLIS};
use asciirc::irc::{Error, Event, PrivMsg};

fn feed(client: &mut Client, target: Option<Event>, text: &str) -> Turn {
    client.sync_with_timeout(target, Some(text.as_bytes())).unwrap()
}

fn logged_in() -> Client {
    let (mut client, _) = Client::new();
    let turn = feed(&mut client, Some(Event::LoggedIn), ":irc.example.net 001 bot0 :Welcome\r\n");
    assert!(turn.done);
    client
}

fn joined(channel: &str) -> Client {
    let mut client = logged_in();
    let line = format!(":bot0!bot@example.net JOIN :#{channel}\r\n");
    let turn = feed(&mut client, Some(Event::JoinChannel), &line);
    assert!(turn.done);
    client
}

fn message(source: &str, content: &str) -> PrivMsg {
    PrivMsg { source: source.to_string(), content: content.to_string() }
}

#[test]
fn new_client_has_reached_nothing() {
    let (client, wait) = Client::new();
    assert!(!client.logged_in());
    assert_eq!(client.channel(), None);
    assert!(client.privmsgs.is_empty());
    assert_eq!(wait, Wait { target: Some(Event::Notice), millis: 120_000 });
}

#[test]
fn sync_waits_the_usual_time() {
    assert_eq!(SYNC_TIMEOUT_MILLIS, 120_000);
    assert_eq!(Client::sync(None), Wait { target: None, millis: 120_000 });
    assert_eq!(
        Client::sync(Some(Event::PrivMsg)),
        Wait { target: Some(Event::PrivMsg), millis: 120_000 }
    );
}

#[test]
fn login_registers_under_the_name() {
    let (client, _) = Client::new();
    assert_eq!(
        client.login("bot0"),
        Exchange {
            command: "USER bot0 bot0 bot0 :asciirc\r\nNICK bot0\r\n".to_string(),
            wait: Wait { target: Some(Event::LoggedIn), millis: 120_000 },
        }
    );
}

#[test]
fn join_before_login_is_refused() {
    let (client, _) = Client::new();
    assert!(matches!(client.join_channel("ascii"), Err(Error::NotLoggedIn)));
    assert!(!client.logged_in());
    assert_eq!(client.channel(), None);
    assert!(client.privmsgs.is_empty());
}

#[test]
fn join_after_login_asks_for_the_channel() {
    let client = logged_in();
    assert_eq!(
        client.join_channel("ascii").unwrap(),
        Exchange {
            command: "JOIN #ascii\r\n".to_string(),
            wait: Wait { target: Some(Event::JoinChannel), millis: 120_000 },
        }
    );
    assert_eq!(client.channel(), None);
}

#[test]
fn send_before_login_is_refused() {
    let (mut client, _) = Client::new();
    client.privmsgs.push(message("alice", "kept"));
    assert!(matches!(client.send_message("hi"), Err(Error::NotLoggedIn)));
    assert_eq!(client.channel(), None);
    assert_eq!(client.privmsgs, vec![message("alice", "kept")]);
}

#[test]
fn send_before_login_is_refused_even_with_a_channel() {
    let (mut client, _) = Client::new();
    feed(&mut client, None, ":bot0!bot@example.net JOIN :#ascii\r\n");
    assert_eq!(client.channel(), Some(&"ascii".to_string()));
    assert!(matches!(client.send_message("hi"), Err(Error::NotLoggedIn)));
}

#[test]
fn send_before_join_is_refused() {
    let client = logged_in();
    assert!(matches!(client.send_message("hi"), Err(Error::NoChannelJoined)));
}

#[test]
fn send_after_join_addresses_the_channel() {
    let client = joined("ascii");
    assert_eq!(client.send_message("hello world").unwrap(), "PRIVMSG #ascii :hello world\r\n");
    assert_eq!(client.send_message(" ").unwrap(), "PRIVMSG #ascii : \r\n");
}

#[test]
fn keepalive_is_answered_with_the_same_argument() {
    let (mut client, _) = Client::new();
    let turn = feed(&mut client, Some(Event::Notice), "PING :irc.example.net\r\n");
    assert_eq!(turn.replies, vec!["PONG :irc.example.net\r\n"]);
    assert!(turn.notices.is_empty());
    assert!(!turn.done);
    assert!(!client.logged_in());
    assert_eq!(client.channel(), None);
    assert!(client.privmsgs.is_empty());
}

#[test]
fn keepalives_are_answered_in_order() {
    let (mut client, _) = Client::new();
    let turn = feed(&mut client, None, "PING 1\r\n:s NOTICE * :hi\r\nPING 2\r\nPING \r\n");
    assert_eq!(turn.replies, vec!["PONG 1\r\n", "PONG 2\r\n", "PONG \r\n"]);
    assert_eq!(turn.notices, vec!["* :hi"]);
    assert!(!turn.done);
}

#[test]
fn wait_ends_with_the_first_event_of_its_class() {
    let (mut client, _) = Client::new();
    let turn = feed(
        &mut client,
        Some(Event::LoggedIn),
        ":s NOTICE * :one\r\n:s 001 bot0 :Welcome\r\n:a!b PRIVMSG #c :unread\r\nPING :late\r\n",
    );
    assert!(turn.done);
    assert_eq!(turn.notices, vec!["* :one"]);
    assert!(turn.replies.is_empty());
    assert!(client.logged_in());
    assert!(client.privmsgs.is_empty());
}

#[test]
fn every_event_has_its_effect_whatever_the_wait_is_for() {
    let (mut client, _) = Client::new();
    let turn = feed(
        &mut client,
        Some(Event::Notice),
        ":s 001 bot0 :Welcome\r\n:bot0!b@h JOIN :#ascii\r\n:alice!a@h PRIVMSG #ascii :art.txt\r\n",
    );
    assert!(!turn.done);
    assert!(client.logged_in());
    assert_eq!(client.channel(), Some(&"ascii".to_string()));
    assert_eq!(client.privmsgs, vec![message("alice", "art.txt")]);
}

#[test]
fn messages_are_kept_in_arrival_order() {
    let mut client = joined("ascii");
    feed(&mut client, None, ":a!x PRIVMSG #ascii :1\r\n:b!x PRIVMSG #ascii :2\r\n");
    feed(&mut client, None, ":c!x PRIVMSG #ascii :3\r\n");
    assert_eq!(client.privmsgs, vec![message("a", "1"), message("b", "2"), message("c", "3")]);
}

#[test]
fn login_is_never_taken_back() {
    let mut client = joined("ascii");
    feed(&mut client, None, ":s NOTICE * :x\r\nPING :y\r\n:s 433 * :junk\r\n\r\n:bot0!b@h JOIN :#other\r\n");
    assert!(client.logged_in());
    assert_eq!(client.channel(), Some(&"other".to_string()));
}

#[test]
fn wait_without_a_class_goes_on_while_bytes_arrive() {
    let (mut client, _) = Client::new();
    let turn = feed(&mut client, None, ":s NOTICE * :one\r\n:s 001 bot0 :Welcome\r\n");
    assert!(!turn.done);
    assert!(client.logged_in());
}

#[test]
fn empty_read_changes_nothing() {
    let (mut client, _) = Client::new();
    let turn = feed(&mut client, Some(Event::Notice), "");
    assert_eq!(turn, Turn { replies: vec![], notices: vec![], done: false });
}

#[test]
fn wait_for_a_class_times_out() {
    let (mut client, _) = Client::new();
    for target in [Event::Notice, Event::LoggedIn, Event::JoinChannel, Event::PrivMsg] {
        assert!(matches!(client.sync_with_timeout(Some(target), None), Err(Error::Timeout)));
    }
    assert!(!client.logged_in());
}

#[test]
fn wait_without_a_class_ends_when_nothing_arrives() {
    let mut client = logged_in();
    let turn = client.sync_with_timeout(None, None).unwrap();
    assert_eq!(turn, Turn { replies: vec![], notices: vec![], done: true });
    assert!(client.logged_in());
}

#[test]
fn bytes_that_are_no_text_are_refused() {
    let mut client = logged_in();
    let mut bytes = b":a!b PRIVMSG #c :hi\r\n".to_vec();
    bytes.push(0xff);
    assert!(matches!(
        client.sync_with_timeout(Some(Event::PrivMsg), Some(&bytes)),
        Err(Error::InvalidString(_))
    ));
    assert!(client.privmsgs.is_empty());
    assert!(client.logged_in());
}

#[test]
fn text_beyond_ascii_is_read() {
    let mut client = joined("ascii");
    let turn = feed(&mut client, Some(Event::PrivMsg), ":zoë!z@h PRIVMSG #ascii :¡héllo ✓ 𝄞!\r\n");
    assert!(turn.done);
    assert_eq!(client.privmsgs, vec![message("zoë", "¡héllo ✓ 𝄞!")]);
}

#[test]
fn line_cut_by_the_end_of_a_read_is_taken_as_it_is() {
    let (mut client, _) = Client::new();
    let turn = feed(&mut client, Some(Event::LoggedIn), ":s 001 bot0 :Wel");
    assert!(turn.done);
    assert!(client.logged_in());
}

#[test]
fn pop_newest_takes_the_last_arrival() {
    let mut client = joined("ascii");
    assert_eq!(client.pop_newest(), None);
    client.privmsgs.push(message("a", "1"));
    client.privmsgs.push(message("b", "2"));
    assert_eq!(client.pop_newest(), Some(message("b", "2")));
    assert_eq!(client.privmsgs, vec![message("a", "1")]);
    assert_eq!(client.channel(), Some(&"ascii".to_string()));
}

#[test]
fn take_echo_drops_what_it_looked_at() {
    let mut client = joined("ascii");
    for (who, what) in [("a", "old"), ("bot0", "A"), ("b", "mid"), ("bot0", "A"), ("c", "new")] {
        client.privmsgs.push(message(who, what));
    }
    assert!(client.take_echo(&"A".to_string()));
    assert_eq!(client.privmsgs, vec![message("a", "old"), message("bot0", "A"), message("b", "mid")]);
    assert!(client.logged_in());
}

#[test]
fn take_echo_without_echo_empties_the_inbox() {
    let mut client = joined("ascii");
    client.privmsgs.push(message("a", "x"));
    client.privmsgs.push(message("b", "y"));
    assert!(!client.take_echo(&"A".to_string()));
    assert!(client.privmsgs.is_empty());
    assert!(!client.take_echo(&"A".to_string()));
}

#[test]
fn take_echo_goes_by_the_body_alone() {
    let mut client = joined("ascii");
    client.privmsgs.push(message("A", "b"));
    assert!(!client.take_echo(&"A".to_string()));
    client.privmsgs.push(message("stranger", "A"));
    assert!(client.take_echo(&"A".to_string()));
}
