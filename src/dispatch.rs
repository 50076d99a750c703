use vstd::prelude::*;
use vstd::utf8::encode_utf8;
use vstd::string::StringExecFns;
use crate::text::split_on;
use crate::command::{interpret, TaskView, Taske, TaskExecutable, TaskWritable};
use crate::config::Config;
use crate::frame::{frame, Message, MessageView};
use crate::output::{kind_text, ErrorKind, Stout};

verus! {

/// Relies on usize::to_be: the identity on a big-endian host, a byte swap on
/// a little-endian one.
#[verifier::external_body]
fn usize_to_be(x: usize) -> usize {
    x.to_be()
}

/// Whether the host stores integers most significant byte first.
pub fn is_big_endian() -> bool {
    let raw: usize = 0x255;
    let cmp: usize = usize_to_be(raw);
    raw == cmp
}

/// A command resolved to a path, and the directory to run it in.
pub struct Runnable {
    pub command: String,
    pub dir: String,
}

impl Runnable {
    /// The command `a_command` looked up in `a_directory`.
    pub fn new(a_command: &str, a_directory: &str) -> (r: Runnable)
        ensures
            r.command@ == a_directory@ + a_command@,
            r.dir@ == a_directory@,
    {
        let base = a_directory.to_owned();
        Runnable { command: base.clone().concat(a_command), dir: base }
    }
}

/// Resolves `command`: as it stands when that path exists
/// (`command_found`), else under `path` when `path` followed by `command`
/// exists (`joined_found`), else not at all.
pub fn compose_command(path: &str, command: &str, command_found: bool, joined_found: bool) -> (r:
    Option<Runnable>)
    ensures
        command_found ==> r is Some && r->0.command@ == "./"@ + command@ && r->0.dir@ == "./"@,
        !command_found && joined_found ==> r is Some && r->0.command@ == path@ + command@
            && r->0.dir@ == path@,
        !command_found && !joined_found ==> r is None,
{
    if command_found {
        Some(Runnable::new(command, "./"))
    } else if joined_found {
        Some(Runnable::new(command, path))
    } else {
        None
    }
}

/// The report on a file write: the file's name, or what went wrong.
pub fn try_write_file(_config: &Config, outcome: Result<String, ErrorKind>, out: &Stout) -> (r: Vec<u8>)
    ensures
        outcome is Ok ==> r@ == frame(encode_utf8("wrote file: "@ + outcome->Ok_0@), out.big_endian),
        outcome is Err ==> r@ == frame(
            encode_utf8("Error writing file: "@ + kind_text(outcome->Err_0)),
            out.big_endian,
        ),
{
    match outcome {
        Ok(x) => out.info("wrote file: ", x.as_str()),
        Err(e) => out.error("Error writing file: ", e),
    }
}

/// What the main loop does next.
pub enum Action {
    /// Nothing; go on to the next frame.
    Continue,
    /// Stop the loop.
    Quit,
    /// Write these bytes to standard output.
    Reply(Vec<u8>),
    /// Run a command.
    Execute(TaskExecutable),
    /// Write a file.
    Write(TaskWritable),
}

/// The abstract value of an `Action`.
pub enum ActionView {
    Continue,
    Quit,
    Reply(Seq<u8>),
    Execute(Seq<char>, Seq<Seq<char>>),
    Write(Seq<char>, Seq<u8>),
}

impl View for Action {
    type V = ActionView;

    open spec fn view(&self) -> ActionView {
        match self {
            Action::Continue => ActionView::Continue,
            Action::Quit => ActionView::Quit,
            Action::Reply(b) => ActionView::Reply(b@),
            Action::Execute(e) => ActionView::Execute(e.command@, e.args.deep_view()),
            Action::Write(w) => ActionView::Write(w.filename@, w.data@),
        }
    }
}

/// What the loop does with a decoded message, given the settings and the
/// host's byte order.
pub open spec fn action_of(
    config: (Seq<char>, Seq<char>),
    m: MessageView,
    big_endian: bool,
) -> ActionView {
    match m {
        MessageView::Fail => ActionView::Reply(
            frame(encode_utf8("Something happened: "@ + "failure"@), big_endian),
        ),
        MessageView::Empty => ActionView::Reply(
            frame(encode_utf8("Something happened: "@ + "empty"@), big_endian),
        ),
        MessageView::Valid(length, text) => match interpret(length, text) {
            TaskView::Empty => ActionView::Continue,
            TaskView::Quit => ActionView::Quit,
            TaskView::Ping(_, t) => ActionView::Reply(frame(encode_utf8(t), big_endian)),
            TaskView::Mirror(_, t) => ActionView::Reply(frame(encode_utf8(t), big_endian)),
            TaskView::Config => ActionView::Reply(
                frame(encode_utf8(config.0 + seq!['\n'] + config.1), big_endian),
            ),
            TaskView::Execute(c, a) => ActionView::Execute(c, a),
            TaskView::Write(f, d) => ActionView::Write(f, d),
        },
    }
}

/// One turn of the main loop: reads the message as a task and says what to
/// do about it.
pub fn dispatch(config: &Config, message: Message, out: &Stout) -> (r: Action)
    ensures
        r@ == action_of(config@, message@, out.big_endian),
{
    let valid = match message {
        Message::Fail => {
            return Action::Reply(out.info("Something happened: ", "failure"));
        },
        Message::Empty => {
            return Action::Reply(out.info("Something happened: ", "empty"));
        },
        Message::Valid(valid) => valid,
    };
    match Taske::from_message(valid) {
        Taske::Empty => Action::Continue,
        Taske::Quit => Action::Quit,
        Taske::Ping(mes) => Action::Reply(mes.to_stdout(out)),
        Taske::Config => Action::Reply(out.try_write(config.to_string())),
        Taske::Mirror(mes) => Action::Reply(mes.to_stdout(out)),
        Taske::Execute(exec) => Action::Execute(exec),
        Taske::Write(writeable) => Action::Write(writeable),
    }
}


/// A message whose first word is `ping` is answered with the frame of
/// `pong`, whatever words follow it.
pub proof fn lemma_ping_replies_pong(
    config: (Seq<char>, Seq<char>),
    length: u32,
    text: Seq<char>,
    big_endian: bool,
)
    requires
        split_on(text, ' ')[0] == "ping"@,
    ensures
        action_of(config, MessageView::Valid(length, text), big_endian) == ActionView::Reply(
            frame(encode_utf8("pong"@), big_endian),
        ),
{
    reveal_strlit("ping");
    reveal_strlit("quit");
    assert("ping"@[0] != "quit"@[0]);
}

} // verus!
