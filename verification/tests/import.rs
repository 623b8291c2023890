use redis_import::importcsv::{map_rows, read_csv};
use redis_import::importredis::{
    import, Action, Execution, Fault, FaultKind, IdKeyMissingError, Import, ImportError, Phase,
    Reply, Step,
};
use redis_import::record::Record;

fn s(text: &str) -> String {
    text.to_string()
}

fn record(fields: &[(&str, &str)]) -> Record {
    let mut record = Record::new();
    for (name, value) in fields {
        record.insert(s(name), s(value));
    }
    record
}

fn packed(parts: &[&str]) -> Vec<u8> {
    let mut out = format!("*{}\r\n", parts.len()).into_bytes();
    for part in parts {
        out.extend_from_slice(format!("${}\r\n", part.len()).as_bytes());
        out.extend_from_slice(part.as_bytes());
        out.extend_from_slice(b"\r\n");
    }
    out
}

fn moved(target: &str) -> Fault {
    Fault { kind: FaultKind::Extension, message: format!("MOVED: 3999 {}", target) }
}

fn users(n: usize) -> Vec<Record> {
    (0..n).map(|i| record(&[("id", &i.to_string()), ("name", "x")])).collect()
}

fn start(data: Vec<Record>) -> (Import, Action) {
    import(s("127.0.0.1"), Some(6379), None, s("users"), s("id"), data)
}

/// What a run looked like from outside.
struct Seen {
    connections: Vec<String>,
    commands: Vec<Vec<u8>>,
    notices: Vec<usize>,
    end: Result<usize, ImportError>,
}

/// Drives an import against a store that answers each action with the next
/// of `replies`, and with `Done` once they are used up.
fn drive(data: Vec<Record>, replies: Vec<Reply>) -> Seen {
    let (mut import, mut action) = start(data);
    let mut replies = replies.into_iter();
    let mut seen = Seen { connections: vec![], commands: vec![], notices: vec![], end: Ok(0) };
    loop {
        match action {
            Action::Connect(address) => seen.connections.push(address),
            Action::Execute(cmd) => seen.commands.push(cmd.get_packed_command()),
            Action::Finish(count) => {
                seen.end = Ok(count);
                break;
            }
            Action::Abort(error) => {
                seen.end = Err(error);
                break;
            }
        }
        assert!(import.running());
        let Step { action: next, progress } = import.advance(replies.next().unwrap_or(Reply::Done));
        if let Some(count) = progress {
            seen.notices.push(count);
        }
        action = next;
    }
    assert!(!import.running());
    seen
}

#[test]
fn import_begins_by_connecting() {
    let (import, action) = import(s("db"), Some(7000), Some(s("2")), s("users"), s("id"), users(1));
    assert!(matches!(action, Action::Connect(ref a) if a == "redis://db:7000/2"));
    assert!(import.running());
    assert_eq!(import.position(), 0);
    assert_eq!(import.phase(), Phase::Connecting);
}

#[test]
fn two_records_take_four_commands() {
    let rows = read_csv("1;Alice\n2;Bob\n", false);
    let records = map_rows(&rows, &vec![s("id"), s("name")]);
    let seen = drive(records, vec![]);
    assert_eq!(seen.connections, vec![s("redis://127.0.0.1:6379")]);
    assert_eq!(
        seen.commands,
        vec![
            packed(&["SADD", "users", "1"]),
            packed(&["HSET", "users:1", "id", "1", "name", "Alice"]),
            packed(&["SADD", "users", "2"]),
            packed(&["HSET", "users:2", "id", "2", "name", "Bob"]),
        ]
    );
    assert_eq!(seen.end, Ok(2));
    assert_eq!(seen.notices, Vec::<usize>::new());
}

#[test]
fn no_records_no_commands() {
    let seen = drive(vec![], vec![]);
    assert_eq!(seen.connections.len(), 1);
    assert_eq!(seen.commands.len(), 0);
    assert_eq!(seen.end, Ok(0));
}

#[test]
fn missing_identifier_stops_the_import_at_its_record() {
    let mut data = users(5);
    data[2] = record(&[("name", "nobody")]);
    let seen = drive(data, vec![]);
    assert_eq!(
        seen.commands,
        vec![
            packed(&["SADD", "users", "0"]),
            packed(&["HSET", "users:0", "id", "0", "name", "x"]),
            packed(&["SADD", "users", "1"]),
            packed(&["HSET", "users:1", "id", "1", "name", "x"]),
        ]
    );
    assert_eq!(
        seen.end,
        Err(ImportError::IdentifierMissing(IdKeyMissingError::create(s("id"), 2)))
    );
}

#[test]
fn missing_identifier_in_the_first_record() {
    let seen = drive(vec![record(&[("name", "nobody")])], vec![]);
    assert_eq!(seen.connections.len(), 1);
    assert_eq!(seen.commands.len(), 0);
    assert_eq!(
        seen.end,
        Err(ImportError::IdentifierMissing(IdKeyMissingError::create(s("id"), 0)))
    );
}

#[test]
fn failed_connection_ends_the_import() {
    let refused = Fault { kind: FaultKind::Other, message: s("Connection refused") };
    let seen = drive(users(3), vec![Reply::Failed(refused)]);
    assert_eq!(seen.commands.len(), 0);
    assert_eq!(
        seen.end,
        Err(ImportError::Connect(Fault { kind: FaultKind::Other, message: s("Connection refused") }))
    );
}

#[test]
fn redirected_command_is_sent_again_to_the_named_node() {
    let seen = drive(users(1), vec![Reply::Done, Reply::Failed(moved("10.0.0.7:7002"))]);
    assert_eq!(seen.connections, vec![s("redis://127.0.0.1:6379"), s("redis://10.0.0.7:7002")]);
    assert_eq!(
        seen.commands,
        vec![
            packed(&["SADD", "users", "0"]),
            packed(&["SADD", "users", "0"]),
            packed(&["HSET", "users:0", "id", "0", "name", "x"]),
        ]
    );
    assert_eq!(seen.end, Ok(1));
}

#[test]
fn redirected_fields_command_is_sent_again() {
    let seen =
        drive(users(2), vec![Reply::Done, Reply::Done, Reply::Failed(moved("10.0.0.7:7002"))]);
    assert_eq!(seen.connections.len(), 2);
    assert_eq!(
        seen.commands,
        vec![
            packed(&["SADD", "users", "0"]),
            packed(&["HSET", "users:0", "id", "0", "name", "x"]),
            packed(&["HSET", "users:0", "id", "0", "name", "x"]),
            packed(&["SADD", "users", "1"]),
            packed(&["HSET", "users:1", "id", "1", "name", "x"]),
        ]
    );
    assert_eq!(seen.end, Ok(2));
}

#[test]
fn each_command_may_follow_a_redirect_of_its_own() {
    let replies = vec![
        Reply::Done,
        Reply::Failed(moved("a:1")),
        Reply::Done,
        Reply::Done,
        Reply::Failed(moved("b:2")),
    ];
    let seen = drive(users(1), replies);
    assert_eq!(seen.connections, vec![s("redis://127.0.0.1:6379"), s("redis://a:1"), s("redis://b:2")]);
    assert_eq!(seen.commands.len(), 4);
    assert_eq!(seen.end, Ok(1));
}

#[test]
fn second_redirect_of_one_command_ends_the_import() {
    let replies =
        vec![Reply::Done, Reply::Failed(moved("a:1")), Reply::Done, Reply::Failed(moved("b:2"))];
    let seen = drive(users(2), replies);
    assert_eq!(seen.connections, vec![s("redis://127.0.0.1:6379"), s("redis://a:1")]);
    assert_eq!(seen.commands.len(), 2);
    assert_eq!(seen.end, Err(ImportError::Store(moved("b:2"))));
}

#[test]
fn unreachable_redirect_target_ends_the_import() {
    let down = Fault { kind: FaultKind::Other, message: s("No route to host") };
    let seen = drive(users(2), vec![Reply::Done, Reply::Failed(moved("a:1")), Reply::Failed(down)]);
    assert_eq!(seen.commands.len(), 1);
    assert_eq!(
        seen.end,
        Err(ImportError::Connect(Fault { kind: FaultKind::Other, message: s("No route to host") }))
    );
}

#[test]
fn store_failure_ends_the_import_where_it_stands() {
    let broken = Fault { kind: FaultKind::Other, message: s("broken pipe") };
    let (mut import, _) = start(users(3));
    import.advance(Reply::Done);
    import.advance(Reply::Done);
    import.advance(Reply::Done);
    assert_eq!(import.position(), 1);
    assert_eq!(import.phase(), Phase::Membership(Execution::Issued));
    let step = import.advance(Reply::Failed(broken));
    assert!(matches!(step.action, Action::Abort(ImportError::Store(ref f)) if f.message == "broken pipe"));
    assert_eq!(step.progress, None);
    assert_eq!(import.position(), 1);
    assert_eq!(import.phase(), Phase::Aborted);
    assert!(!import.running());
}

#[test]
fn phases_follow_the_commands() {
    let (mut import, _) = start(users(1));
    assert_eq!(import.phase(), Phase::Connecting);
    import.advance(Reply::Done);
    assert_eq!(import.phase(), Phase::Membership(Execution::Issued));
    import.advance(Reply::Failed(moved("a:1")));
    assert_eq!(import.phase(), Phase::Membership(Execution::Redirected));
    import.advance(Reply::Done);
    assert_eq!(import.phase(), Phase::Membership(Execution::Reissued));
    import.advance(Reply::Done);
    assert_eq!(import.phase(), Phase::Fields(Execution::Issued));
    assert_eq!(import.position(), 0);
    let step = import.advance(Reply::Done);
    assert!(matches!(step.action, Action::Finish(1)));
    assert_eq!(import.phase(), Phase::Finished);
    assert_eq!(import.position(), 1);
}

#[test]
fn one_notification_for_a_hundred_and_fifty_records() {
    let seen = drive(users(150), vec![]);
    assert_eq!(seen.commands.len(), 300);
    assert_eq!(seen.notices, vec![100]);
    assert_eq!(seen.end, Ok(150));
}

#[test]
fn no_notification_below_a_hundred_records() {
    assert_eq!(drive(users(99), vec![]).notices, Vec::<usize>::new());
}

#[test]
fn notification_with_the_hundredth_record() {
    let seen = drive(users(100), vec![]);
    assert_eq!(seen.notices, vec![100]);
    assert_eq!(seen.end, Ok(100));
}

#[test]
fn notifications_at_every_hundred() {
    assert_eq!(drive(users(350), vec![]).notices, vec![100, 200, 300]);
}

#[test]
fn notification_comes_before_the_missing_identifier_of_the_next_record() {
    let mut data = users(101);
    data[100] = record(&[("name", "nobody")]);
    let seen = drive(data, vec![]);
    assert_eq!(seen.notices, vec![100]);
    assert_eq!(
        seen.end,
        Err(ImportError::IdentifierMissing(IdKeyMissingError::create(s("id"), 100)))
    );
}

#[test]
fn redirects_do_not_move_the_notification() {
    let mut replies = vec![Reply::Done];
    for _ in 0..100 {
        replies.push(Reply::Failed(moved("a:1")));
        replies.push(Reply::Done);
        replies.push(Reply::Done);
        replies.push(Reply::Done);
    }
    let seen = drive(users(120), replies);
    assert_eq!(seen.notices, vec![100]);
    assert_eq!(seen.connections.len(), 101);
    assert_eq!(seen.end, Ok(120));
}

#[test]
fn redirect_of_every_command_takes_six_replies_a_record() {
    let n = 7;
    let mut replies = vec![Reply::Done];
    for _ in 0..2 * n {
        replies.push(Reply::Failed(moved("a:1")));
        replies.push(Reply::Done);
        replies.push(Reply::Done);
    }
    let (mut import, _) = start(users(n));
    let mut taken = 0;
    for reply in replies {
        assert!(import.running());
        import.advance(reply);
        taken += 1;
    }
    assert_eq!(taken, 1 + 6 * n);
    assert!(!import.running());
    assert_eq!(import.phase(), Phase::Finished);
    assert_eq!(import.position(), n);
}
