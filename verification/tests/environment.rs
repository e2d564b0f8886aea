use enclaver::environment::{
    parse_environment, select_environment, EnvAction, EnvError, EnvFailure, EnvProgress, EnvReply,
    EnvironmentSync, ARG_MAX, ENV_ACK, ENV_READ_SIZE, ENV_SYNC_TIMEOUT_SECS,
};
use enclaver::table::StringMap;

fn s(text: &str) -> String {
    text.to_string()
}

fn list(keys: &[&str]) -> Vec<String> {
    keys.iter().map(|k| k.to_string()).collect()
}

fn sorted(table: &StringMap<String>) -> Vec<(String, String)> {
    let mut all: Vec<(String, String)> = (0..table.len())
        .map(|i| (table.entry(i).0.clone(), table.entry(i).1.clone()))
        .collect();
    all.sort();
    all
}

fn pairs(all: &[(&str, &str)]) -> Vec<(String, String)> {
    all.iter().map(|(k, v)| (s(k), s(v))).collect()
}

fn data(bytes: &[u8]) -> EnvReply {
    EnvReply::Data {
        bytes: bytes.to_vec(),
    }
}

/// Runs a sync with these replies, and tells how it goes on after the last one.
fn run(keys: &[&str], replies: Vec<EnvReply>) -> EnvProgress {
    let (mut sync, mut progress) = EnvironmentSync::start(Some(list(keys)));
    for reply in replies {
        assert!(matches!(progress, EnvProgress::Next { .. }));
        progress = sync.step(reply);
    }
    progress
}

fn environment(progress: EnvProgress) -> Vec<(String, String)> {
    match progress {
        EnvProgress::Finished { result: Ok(env) } => sorted(&env),
        other => panic!("{:?}", other),
    }
}

fn failure(progress: EnvProgress) -> (EnvFailure, String) {
    match progress {
        EnvProgress::Finished {
            result: Err(error), ..
        } => match error {
            EnvError::Failure { failure } => (failure, error.message()),
            other => panic!("{:?}", other),
        },
        other => panic!("{:?}", other),
    }
}

/// The message and the cause of what a sync failed with.
fn told(progress: EnvProgress) -> (String, Option<String>) {
    match progress {
        EnvProgress::Finished { result: Err(error) } => (error.message(), error.cause()),
        other => panic!("{:?}", other),
    }
}

#[test]
fn nothing_is_done_when_no_variable_is_listed() {
    for keys in [None, Some(vec![])] {
        let (_, progress) = EnvironmentSync::start(keys);
        assert_eq!(environment(progress), vec![]);
    }
}

#[test]
fn listed_variables_are_taken_over() {
    let keys = list(&["HOME", "MISSING", "TERM", "HOME"]);
    let (mut sync, progress) = EnvironmentSync::start(Some(keys));
    assert!(matches!(
        progress,
        EnvProgress::Next {
            action: EnvAction::Listen
        }
    ));
    assert!(matches!(
        sync.step(EnvReply::Done),
        EnvProgress::Next {
            action: EnvAction::Accept
        }
    ));
    assert!(matches!(
        sync.step(EnvReply::Done),
        EnvProgress::Next {
            action: EnvAction::Read { len: 1024 }
        }
    ));
    for part in [&b"{\"HOME\":\"/root\",\"TE"[..], &b"RM\":\"xterm\",\"PATH\":\"/bin\"}"[..]] {
        assert!(matches!(
            sync.step(data(part)),
            EnvProgress::Next {
                action: EnvAction::Read { len: 1024 }
            }
        ));
    }
    assert!(matches!(
        sync.step(data(b"")),
        EnvProgress::Next {
            action: EnvAction::SendByte { byte: 6 }
        }
    ));
    assert_eq!(
        environment(sync.step(EnvReply::Done)),
        pairs(&[("HOME", "/root"), ("TERM", "xterm")])
    );
}

#[test]
fn an_ack_that_cannot_be_sent_makes_no_difference() {
    let progress = run(
        &["A"],
        vec![
            EnvReply::Done,
            EnvReply::Done,
            data(b"{\"A\":\"1\"}"),
            data(b""),
            EnvReply::Failed { reason: s("gone") },
        ],
    );
    assert_eq!(environment(progress), pairs(&[("A", "1")]));
}

#[test]
fn a_broken_connection_is_given_up_with_what_it_delivered() {
    let progress = run(
        &["A", "B"],
        vec![
            EnvReply::Done,
            EnvReply::Done,
            data(b"{\"A\":\"1\","),
            EnvReply::Failed { reason: s("reset") },
            EnvReply::Done,
            EnvReply::Failed { reason: s("reset") },
            EnvReply::Done,
            data(b"{\"B\":\"2\"}"),
            data(b""),
            EnvReply::Done,
        ],
    );
    assert_eq!(environment(progress), pairs(&[("B", "2")]));
    assert!(matches!(
        run(
            &["A"],
            vec![
                EnvReply::Done,
                EnvReply::Done,
                EnvReply::Failed { reason: s("reset") }
            ]
        ),
        EnvProgress::Next {
            action: EnvAction::Accept
        }
    ));
}

#[test]
fn no_connection_and_time_outs() {
    assert_eq!(
        failure(run(&["A"], vec![EnvReply::Done, EnvReply::Closed])),
        (
            EnvFailure::NoConnection,
            s("Failed to accept environment sync vsock connection")
        )
    );
    assert_eq!(
        failure(run(&["A"], vec![EnvReply::Done, EnvReply::TimedOut])),
        (
            EnvFailure::AcceptTimeout,
            s("Timed out while waiting for environment sync")
        )
    );
    assert_eq!(
        failure(run(
            &["A"],
            vec![EnvReply::Done, EnvReply::Done, data(b"{"), EnvReply::TimedOut]
        )),
        (
            EnvFailure::ReadTimeout,
            s("Timed out while reading environment")
        )
    );
    assert_eq!(ENV_SYNC_TIMEOUT_SECS, 10);
}

#[test]
fn listening_can_fail() {
    match run(&["A"], vec![EnvReply::Failed { reason: s("in use") }]) {
        EnvProgress::Finished { result: Err(error) } => {
            assert!(matches!(error, EnvError::Listen { .. }));
            assert_eq!(error.message(), "in use");
            assert_eq!(error.cause(), None);
        }
        other => panic!("{:?}", other),
    }
}

#[test]
fn the_environment_may_fill_the_limit_but_not_exceed_it() {
    let mut text = b"{\"A\":\"".to_vec();
    text.resize(ARG_MAX - 2, b'x');
    text.extend(b"\"}");
    assert_eq!(text.len(), 131072);
    let value = "x".repeat(ARG_MAX - 8);
    let fill = |extra: &[u8]| {
        let mut replies = vec![EnvReply::Done, EnvReply::Done];
        for chunk in text.chunks(ENV_READ_SIZE) {
            replies.push(data(chunk));
        }
        replies.push(data(extra));
        replies
    };
    let mut replies = fill(b"");
    replies.push(EnvReply::Done);
    assert_eq!(
        environment(run(&["A"], replies)),
        vec![(s("A"), value)]
    );
    assert_eq!(
        failure(run(&["A"], fill(b" "))),
        (EnvFailure::TooLarge, s("Maximum environment size exceeded"))
    );
    assert_eq!(ENV_ACK, 6);
}

#[test]
fn what_is_not_an_object_of_strings_is_malformed() {
    for (text, cause) in [
        ("", "EOF while parsing a value at line 1 column 0"),
        ("nonsense", "expected ident at line 1 column 2"),
        ("[]", "invalid type: sequence, expected a map at line 1 column 0"),
        ("null", "invalid type: null, expected a map at line 1 column 4"),
        (
            "{\"A\":1}",
            "invalid type: integer `1`, expected a string at line 1 column 6",
        ),
        (
            "{\"A\":null}",
            "invalid type: null, expected a string at line 1 column 9",
        ),
        ("{\"A\":\"1\"", "EOF while parsing an object at line 1 column 8"),
        ("{\"A\":\"1\"} x", "trailing characters at line 1 column 11"),
    ] {
        let mut replies = vec![EnvReply::Done, EnvReply::Done];
        if !text.is_empty() {
            replies.push(data(text.as_bytes()));
        }
        replies.push(data(b""));
        replies.push(EnvReply::Done);
        assert_eq!(
            told(run(&["A"], replies)),
            (
                s("Failed to parse the synced environment"),
                Some(s(cause))
            ),
            "{}",
            text
        );
    }
}

#[test]
fn bytes_are_parsed_as_json() {
    let parse = |keys: &[&str], text: &str| {
        parse_environment(&list(keys), text.as_bytes()).map(|env| sorted(&env))
    };
    assert_eq!(parse(&["A"], "{}").unwrap(), vec![]);
    assert_eq!(
        parse(&["A", "B"], " { \"B\" : \"two\\nlines \\u00e9\" } ").unwrap(),
        pairs(&[("B", "two\nlines \u{e9}")])
    );
    assert_eq!(
        parse(&["A"], "{\"A\":\"1\",\"A\":\"2\"}").unwrap(),
        pairs(&[("A", "2")])
    );
    assert_eq!(parse(&[], "{\"A\":\"1\"}").unwrap(), vec![]);
    assert!(parse(&["A"], "{\"A\":\"\u{1}\"}").is_err());
}

#[test]
fn exactly_the_listed_variables_are_selected() {
    let synced = StringMap::from_pairs(pairs(&[("A", "1"), ("B", "2"), ("C", "3")]));
    let env = select_environment(&list(&["C", "A", "Z", "C"]), synced);
    assert_eq!(sorted(&env), pairs(&[("A", "1"), ("C", "3")]));
}
