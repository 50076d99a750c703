use rsio::command::TaskWritable;
use rsio::config::{parse_config, Config};
use rsio::dispatch::{compose_command, dispatch, is_big_endian, try_write_file, Action, Runnable};
use rsio::frame::{encode_frame, Message, ValidMessage};
use rsio::output::{ErrorKind, Stout};

fn valid(text: &str) -> Message {
    Message::Valid(ValidMessage { length: text.len() as u32, content: text.to_string() })
}

fn reply(a: Action) -> Vec<u8> {
    match a {
        Action::Reply(b) => b,
        _ => panic!("expected Reply"),
    }
}

#[test]
fn parse_two_keys() {
    let c = parse_config(&"name=bridge\nexec_path=/usr/local/bin/\n".to_string());
    assert_eq!(c.name, "bridge");
    assert_eq!(c.exec_path, "/usr/local/bin/");
}

#[test]
fn parse_skips_unknown_and_malformed_lines() {
    let c = parse_config(&"garbage\ncolor=red\nname=x\n\n".to_string());
    assert_eq!(c.name, "x");
    assert_eq!(c.exec_path, "");
}

#[test]
fn parse_value_ends_at_next_equals() {
    let c = parse_config(&"name=a=b".to_string());
    assert_eq!(c.name, "a");
}

#[test]
fn parse_later_line_wins() {
    let c = parse_config(&"name=first\nname=second".to_string());
    assert_eq!(c.name, "second");
}

#[test]
fn parse_strips_carriage_return_before_line_feed() {
    let c = parse_config(&"name=win\r\nexec_path=C:\\bin\\\r\n".to_string());
    assert_eq!(c.name, "win");
    assert_eq!(c.exec_path, "C:\\bin\\");
}

#[test]
fn parse_keeps_carriage_return_on_last_line() {
    let c = parse_config(&"name=cr\r".to_string());
    assert_eq!(c.name, "cr\r");
}

#[test]
fn parse_empty_text() {
    let c = parse_config(&String::new());
    assert_eq!(c.name, "");
    assert_eq!(c.exec_path, "");
}

#[test]
fn config_new_and_to_string() {
    let c = Config::new();
    assert_eq!(c.to_string(), "\n");
    let d = Config { name: "n".to_string(), exec_path: "/p/".to_string() };
    assert_eq!(d.to_string(), "n\n/p/");
}

#[test]
fn error_kind_names() {
    assert_eq!(ErrorKind::NotFound.ek_str(), "Not found");
    assert_eq!(ErrorKind::PermissionDenied.ek_str(), "Permission denied");
    assert_eq!(ErrorKind::AlreadyExists.ek_str(), "File exists");
    assert_eq!(ErrorKind::InvalidInput.ek_str(), "Invalid input");
    assert_eq!(ErrorKind::InvalidData.ek_str(), "Invalid data");
    assert_eq!(ErrorKind::TimedOut.ek_str(), "Timeout");
    assert_eq!(ErrorKind::UnexpectedEof.ek_str(), "unexpected EOF");
    assert_eq!(ErrorKind::Other.ek_str(), "Unknown error");
}

#[test]
fn stout_frames() {
    let out = Stout { big_endian: false };
    assert_eq!(out.info("a", "b"), encode_frame("ab", false));
    assert_eq!(out.error("e: ", ErrorKind::TimedOut), encode_frame("e: Timeout", false));
    assert_eq!(out.try_write("x".to_string()), vec![3, 0, 0, 0, 34, b'x', 34]);
}

#[test]
fn message_to_stdout() {
    let out = Stout { big_endian: true };
    assert_eq!(valid("ok").to_stdout(&out), Some(vec![0, 0, 0, 4, 34, b'o', b'k', 34]));
    assert!(Message::Empty.to_stdout(&out).is_none());
    assert!(Message::Fail.to_stdout(&out).is_none());
}

#[test]
fn runnable_joins_directory_and_command() {
    let r = Runnable::new("tool", "/opt/");
    assert_eq!(r.command, "/opt/tool");
    assert_eq!(r.dir, "/opt/");
}

#[test]
fn compose_prefers_command_as_given() {
    let r = compose_command("/opt/", "tool", true, true).unwrap();
    assert_eq!(r.command, "./tool");
    assert_eq!(r.dir, "./");
}

#[test]
fn compose_falls_back_to_exec_path() {
    let r = compose_command("/opt/", "tool", false, true).unwrap();
    assert_eq!(r.command, "/opt/tool");
    assert_eq!(r.dir, "/opt/");
}

#[test]
fn compose_unresolved() {
    assert!(compose_command("/opt/", "tool", false, false).is_none());
}

#[test]
fn write_file_reports() {
    let out = Stout { big_endian: false };
    let c = Config::new();
    assert_eq!(
        try_write_file(&c, Ok("a.txt".to_string()), &out),
        encode_frame("wrote file: a.txt", false)
    );
    assert_eq!(
        try_write_file(&c, Err(ErrorKind::PermissionDenied), &out),
        encode_frame("Error writing file: Permission denied", false)
    );
}

#[test]
fn dispatch_failure_and_empty() {
    let out = Stout { big_endian: false };
    let c = Config::new();
    assert_eq!(
        reply(dispatch(&c, Message::Fail, &out)),
        encode_frame("Something happened: failure", false)
    );
    assert_eq!(
        reply(dispatch(&c, Message::Empty, &out)),
        encode_frame("Something happened: empty", false)
    );
}

#[test]
fn dispatch_ping_mirror_config() {
    let out = Stout { big_endian: false };
    let c = Config { name: "me".to_string(), exec_path: "/x/".to_string() };
    assert_eq!(reply(dispatch(&c, valid("ping extra"), &out)), encode_frame("pong", false));
    assert_eq!(
        reply(dispatch(&c, valid("mirror hello there"), &out)),
        encode_frame("mirror hello there", false)
    );
    assert_eq!(reply(dispatch(&c, valid("config"), &out)), encode_frame("me\n/x/", false));
}

#[test]
fn dispatch_quit_and_nothing() {
    let out = Stout { big_endian: false };
    let c = Config::new();
    assert!(matches!(dispatch(&c, valid("quit"), &out), Action::Quit));
    assert!(matches!(dispatch(&c, valid("dostuff"), &out), Action::Continue));
    assert!(matches!(dispatch(&c, valid("nonsense"), &out), Action::Continue));
}

#[test]
fn dispatch_execute_and_write() {
    let out = Stout { big_endian: false };
    let c = Config::new();
    match dispatch(&c, valid("dostuff ls -l"), &out) {
        Action::Execute(e) => {
            assert_eq!(e.command, "ls");
            assert_eq!(e.args, vec!["-l".to_string()]);
        },
        _ => panic!("expected Execute"),
    }
    match dispatch(&c, valid("write f.txt a b"), &out) {
        Action::Write(TaskWritable { filename, data }) => {
            assert_eq!(filename, "f.txt");
            assert_eq!(data, b"a b ".to_vec());
        },
        _ => panic!("expected Write"),
    }
}

#[test]
fn host_byte_order() {
    assert_eq!(is_big_endian(), u32::from_ne_bytes([0, 0, 0, 1]) == 1);
}
