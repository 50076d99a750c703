use rsio::command::Taske;
use rsio::frame::ValidMessage;

fn msg(text: &str) -> ValidMessage {
    ValidMessage { length: text.len() as u32, content: text.to_string() }
}

#[test]
fn ping_yields_pong() {
    match Taske::from_message(msg("ping")) {
        Taske::Ping(m) => {
            assert_eq!(m.content, "pong");
            assert_eq!(m.length, 4);
        },
        _ => panic!("expected Ping"),
    }
}

#[test]
fn ping_ignores_trailing_tokens() {
    match Taske::from_message(msg("ping a b c")) {
        Taske::Ping(m) => {
            assert_eq!(m.content, "pong");
            assert_eq!(m.length, 4);
        },
        _ => panic!("expected Ping"),
    }
}

#[test]
fn quit_and_config() {
    assert!(matches!(Taske::from_message(msg("quit")), Taske::Quit));
    assert!(matches!(Taske::from_message(msg("quit now")), Taske::Quit));
    assert!(matches!(Taske::from_message(msg("config")), Taske::Config));
}

#[test]
fn mirror_carries_whole_message() {
    match Taske::from_message(msg("mirror hello there")) {
        Taske::Mirror(m) => {
            assert_eq!(m.content, "mirror hello there");
            assert_eq!(m.length, 18);
        },
        _ => panic!("expected Mirror"),
    }
}

#[test]
fn write_appends_space_after_each_word() {
    match Taske::from_message(msg("write foo.txt hello world")) {
        Taske::Write(w) => {
            assert_eq!(w.filename, "foo.txt");
            assert_eq!(w.data, b"hello world ".to_vec());
        },
        _ => panic!("expected Write"),
    }
}

#[test]
fn write_without_data_is_empty_file() {
    match Taske::from_message(msg("write notes")) {
        Taske::Write(w) => {
            assert_eq!(w.filename, "notes");
            assert!(w.data.is_empty());
        },
        _ => panic!("expected Write"),
    }
}

#[test]
fn write_keeps_empty_words() {
    match Taske::from_message(msg("write f a  b")) {
        Taske::Write(w) => {
            assert_eq!(w.filename, "f");
            assert_eq!(w.data, b"a  b ".to_vec());
        },
        _ => panic!("expected Write"),
    }
}

#[test]
fn write_without_filename_is_empty() {
    assert!(matches!(Taske::from_message(msg("write")), Taske::Empty));
}

#[test]
fn dostuff_without_command_is_empty() {
    assert!(matches!(Taske::from_message(msg("dostuff")), Taske::Empty));
}

#[test]
fn dostuff_collects_arguments() {
    match Taske::from_message(msg("dostuff ls -l -a")) {
        Taske::Execute(e) => {
            assert_eq!(e.command, "ls");
            assert_eq!(e.args, vec!["-l".to_string(), "-a".to_string()]);
        },
        _ => panic!("expected Execute"),
    }
}

#[test]
fn dostuff_without_arguments() {
    match Taske::from_message(msg("dostuff run.sh")) {
        Taske::Execute(e) => {
            assert_eq!(e.command, "run.sh");
            assert!(e.args.is_empty());
        },
        _ => panic!("expected Execute"),
    }
}

#[test]
fn unknown_or_empty_is_empty() {
    assert!(matches!(Taske::from_message(msg("")), Taske::Empty));
    assert!(matches!(Taske::from_message(msg("hello world")), Taske::Empty));
    assert!(matches!(Taske::from_message(msg(" ping")), Taske::Empty));
    assert!(matches!(Taske::from_message(msg("PING")), Taske::Empty));
}
