use asciirc::irc::{Error, Event, Line, PrivMsg};
use asciirc::sequencer::payload_lines;
use asciirc::text::{chars_of, decode, find, is_word, line_spans, same, skip_leading, string_of};

fn chars(s: &str) -> Vec<char> {
    s.chars().collect()
}

fn privmsg(source: &str, content: &str) -> Line {
    Line::PrivMsg(PrivMsg { source: source.to_string(), content: content.to_string() })
}

#[test]
fn event_from_str_names_each_class() {
    assert!(matches!(Event::from_str("NOTICE"), Ok(Event::Notice)));
    assert!(matches!(Event::from_str("JOIN"), Ok(Event::JoinChannel)));
    assert!(matches!(Event::from_str("PRIVMSG"), Ok(Event::PrivMsg)));
    assert!(matches!(Event::from_str("001"), Ok(Event::LoggedIn)));
}

#[test]
fn event_from_str_refuses_other_words() {
    for word in ["", "PING", "notice", "002", "JOIN ", " JOIN", "PRIVMSGS", "0010"] {
        assert!(matches!(Event::from_str(word), Err(Error::InvalidEvent)), "{word:?}");
    }
}

#[test]
fn event_parses_through_the_std_trait() {
    assert_eq!("JOIN".parse::<Event>().unwrap(), Event::JoinChannel);
    assert!(matches!("QUIT".parse::<Event>(), Err(Error::InvalidEvent)));
}

#[test]
fn join_confirmation_names_channel_without_markers() {
    assert_eq!(
        Line::parse(":bot0!user@host JOIN :#ascii"),
        Some(Line::JoinChannel("ascii".to_string()))
    );
    assert_eq!(Line::parse(":bot0!user@host JOIN #ascii"), Some(Line::JoinChannel("ascii".to_string())));
    assert_eq!(Line::parse(":bot0!user@host JOIN ascii"), Some(Line::JoinChannel("ascii".to_string())));
}

#[test]
fn join_confirmation_loses_every_leading_marker() {
    assert_eq!(Line::parse(":b JOIN :::##a#b:"), Some(Line::JoinChannel("a#b:".to_string())));
    assert_eq!(Line::parse(":b JOIN #:a"), Some(Line::JoinChannel(":a".to_string())));
    assert_eq!(Line::parse(":b JOIN "), Some(Line::JoinChannel(String::new())));
}

#[test]
fn notice_carries_its_parameters() {
    assert_eq!(
        Line::parse(":irc.example.net NOTICE * :*** Looking up your hostname"),
        Some(Line::Notice("* :*** Looking up your hostname".to_string()))
    );
}

#[test]
fn login_confirmation_is_read_by_its_number() {
    assert_eq!(Line::parse(":irc.example.net 001 bot0 :Welcome"), Some(Line::LoggedIn));
    assert_eq!(Line::parse("x 001 "), Some(Line::LoggedIn));
}

#[test]
fn message_gives_sender_and_body() {
    assert_eq!(
        Line::parse(":alice!alice@example.net PRIVMSG #ascii :hello there: friend"),
        Some(privmsg("alice", "hello there: friend"))
    );
}

#[test]
fn message_loses_first_characters_whatever_they_are() {
    assert_eq!(Line::parse("alice!a@b PRIVMSG #c hello"), Some(privmsg("lice", "ello")));
    assert_eq!(Line::parse("éa!x PRIVMSG #c ébc"), Some(privmsg("a", "bc")));
    assert_eq!(Line::parse(":!x PRIVMSG #c :"), Some(privmsg("", "")));
}

#[test]
fn message_without_its_parts_says_nothing() {
    assert_eq!(Line::parse(":alice PRIVMSG #c :no exclamation mark"), None);
    assert_eq!(Line::parse(":alice!a@b PRIVMSG #c"), None);
    assert_eq!(Line::parse("!a@b PRIVMSG #c :empty sender part"), None);
    assert_eq!(Line::parse(":alice!a@b PRIVMSG #c "), None);
}

#[test]
fn keepalive_probe_gives_its_argument() {
    assert_eq!(Line::parse("PING :irc.example.net"), Some(Line::Ping(":irc.example.net".to_string())));
    assert_eq!(Line::parse("PING "), Some(Line::Ping(String::new())));
    assert_eq!(Line::parse("PING a b c"), Some(Line::Ping("a b c".to_string())));
}

#[test]
fn keepalive_check_comes_before_classification() {
    assert_eq!(Line::parse("PING PRIVMSG x"), Some(Line::Ping("PRIVMSG x".to_string())));
    assert_eq!(Line::parse("PING 001 x"), Some(Line::Ping("001 x".to_string())));
}

#[test]
fn malformed_and_unknown_lines_say_nothing() {
    for line in ["", "PING", ":server", ":server 001", ":server QUIT :bye", ":server  001 x", " ", "ping :x"] {
        assert_eq!(Line::parse(line), None, "{line:?}");
    }
}

#[test]
fn line_event_gives_the_class() {
    assert_eq!(Line::parse("PING :x").unwrap().event(), None);
    assert_eq!(Line::parse(":s NOTICE x").unwrap().event(), Some(Event::Notice));
    assert_eq!(Line::parse(":s 001 x").unwrap().event(), Some(Event::LoggedIn));
    assert_eq!(Line::parse(":s JOIN x").unwrap().event(), Some(Event::JoinChannel));
    assert_eq!(Line::parse(":a!b PRIVMSG x :y").unwrap().event(), Some(Event::PrivMsg));
}

#[test]
fn of_chars_agrees_with_parse() {
    for line in [":a!b PRIVMSG #c :hi", "PING :1", ":s JOIN :#c", "junk"] {
        assert_eq!(Line::of_chars(&chars(line)), Line::parse(line));
    }
}

const TEXTS: [&str; 16] = [
    "",
    "\n",
    "\r\n",
    "\r",
    "a",
    "a\n",
    "a\r\n",
    "a\r",
    "a\n\nb",
    "a\r\n\r\nb\r\n",
    "a\r\r\nb",
    "\n\n\n",
    "one\ntwo\r\nthree",
    "x\n\r",
    "\rx\n",
    "héllo\nwörld\r\n✓",
];

#[test]
fn lines_are_those_of_std() {
    for text in TEXTS {
        let expected: Vec<String> = text.lines().map(|l| l.to_string()).collect();
        assert_eq!(payload_lines(text), expected, "{text:?}");
    }
}

#[test]
fn lines_exact_values() {
    assert_eq!(payload_lines("A\nB\nC\n\n"), vec!["A", "B", "C", ""]);
    assert_eq!(payload_lines("a\r\nb\r"), vec!["a", "b\r"]);
    assert_eq!(payload_lines(""), Vec::<String>::new());
}

#[test]
fn line_spans_delimit_the_lines() {
    let text = chars("ab\r\n\ncd");
    assert_eq!(line_spans(&text), vec![(0, 2), (4, 4), (5, 7)]);
}

#[test]
fn find_gives_first_position_or_length() {
    assert_eq!(find(&chars("a b c"), ' '), 1);
    assert_eq!(find(&chars(" ab"), ' '), 0);
    assert_eq!(find(&chars("abc"), ' '), 3);
    assert_eq!(find(&chars(""), ' '), 0);
}

#[test]
fn skip_leading_is_trim_start_matches() {
    for text in ["", ":", "::a", "a::", ":#:a", "#a"] {
        let expected = text.trim_start_matches(':');
        assert_eq!(string_of(skip_leading(&chars(text), ':')), expected);
    }
}

#[test]
fn same_and_is_word_compare_text() {
    assert!(same(&chars("abc"), &chars("abc")));
    assert!(!same(&chars("abc"), &chars("abd")));
    assert!(!same(&chars("abc"), &chars("ab")));
    assert!(same(&chars(""), &chars("")));
    assert!(is_word(&chars("PING"), "PING"));
    assert!(!is_word(&chars("PINGS"), "PING"));
}

#[test]
fn chars_and_strings_convert_both_ways() {
    assert_eq!(chars_of("héllo ✓"), chars("héllo ✓"));
    assert_eq!(string_of(&chars("héllo ✓")), "héllo ✓");
    assert_eq!(chars_of(""), Vec::<char>::new());
}

#[test]
fn decode_accepts_exactly_well_formed_utf8() {
    assert_eq!(decode("héllo ✓ 𝄞".as_bytes()).unwrap(), chars("héllo ✓ 𝄞"));
    assert_eq!(decode(b"").unwrap(), Vec::<char>::new());
    assert!(decode(&[0xff]).is_err());
    assert!(decode(&[0xc3]).is_err());
    assert!(decode(&[0xc0, 0x80]).is_err());
    assert!(decode(&[0xed, 0xa0, 0x80]).is_err());
    assert!(decode(&[0xf4, 0x90, 0x80, 0x80]).is_err());
    assert!(decode(&[b'a', 0x80]).is_err());
}
