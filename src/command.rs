use vstd::prelude::*;
use vstd::utf8::encode_utf8;
use vstd::string::StringSliceAdditionalSpecFns;
use crate::frame::ValidMessage;
use crate::text::{same_text, split_on, split_text};

verus! {

/// A file to create, and the bytes to put in it.
pub struct TaskWritable {
    pub filename: String,
    pub data: Vec<u8>,
}

/// A command to run, and its arguments.
pub struct TaskExecutable {
    pub command: String,
    pub args: Vec<String>,
}

/// What a decoded message asks for.
pub enum Taske {
    Empty,
    Ping(ValidMessage),
    Quit,
    Config,
    Mirror(ValidMessage),
    Execute(TaskExecutable),
    Write(TaskWritable),
}

/// The abstract value of a `Taske`.
pub enum TaskView {
    Empty,
    Ping(u32, Seq<char>),
    Quit,
    Config,
    Mirror(u32, Seq<char>),
    Execute(Seq<char>, Seq<Seq<char>>),
    Write(Seq<char>, Seq<u8>),
}

impl View for Taske {
    type V = TaskView;

    open spec fn view(&self) -> TaskView {
        match self {
            Taske::Empty => TaskView::Empty,
            Taske::Ping(m) => TaskView::Ping(m.length, m.content@),
            Taske::Quit => TaskView::Quit,
            Taske::Config => TaskView::Config,
            Taske::Mirror(m) => TaskView::Mirror(m.length, m.content@),
            Taske::Execute(e) => TaskView::Execute(e.command@, e.args.deep_view()),
            Taske::Write(w) => TaskView::Write(w.filename@, w.data@),
        }
    }
}

/// The bytes of each word, each followed by one space.
pub open spec fn write_data(words: Seq<Seq<char>>) -> Seq<u8>
    decreases words.len(),
{
    if words.len() == 0 {
        Seq::empty()
    } else {
        write_data(words.drop_last()) + encode_utf8(words.last()) + seq![32u8]
    }
}

/// The task that a message of `length` bytes and text `text` asks for.
pub open spec fn interpret(length: u32, text: Seq<char>) -> TaskView {
    let t = split_on(text, ' ');
    let op = t[0];
    if op == "quit"@ {
        TaskView::Quit
    } else if op == "ping"@ {
        TaskView::Ping(4, "pong"@)
    } else if op == "config"@ {
        TaskView::Config
    } else if op == "mirror"@ {
        TaskView::Mirror(length, text)
    } else if t.len() < 2 {
        TaskView::Empty
    } else if op == "dostuff"@ {
        TaskView::Execute(t[1], t.subrange(2, t.len() as int))
    } else if op == "write"@ {
        TaskView::Write(t[1], write_data(t.subrange(2, t.len() as int)))
    } else {
        TaskView::Empty
    }
}

impl Taske {
    /// Reads the first space-separated word of the message as an operation
    /// and the rest as its arguments.
    pub fn from_message(message: ValidMessage) -> (r: Taske)
        ensures
            r@ == interpret(message.length, message.content@),
    {
        let parts = split_text(message.content.as_str(), ' ');
        let ghost t = parts.deep_view();
        assert(t.len() >= 1);
        assert(parts[0]@ == t[0]);
        if same_text(&parts[0], "quit") {
            return Taske::Quit;
        }
        if same_text(&parts[0], "ping") {
            return Taske::Ping(ValidMessage { content: "pong".to_owned(), length: 4 });
        }
        if same_text(&parts[0], "config") {
            return Taske::Config;
        }
        if same_text(&parts[0], "mirror") {
            return Taske::Mirror(message);
        }
        if parts.len() < 2 {
            return Taske::Empty;
        }
        assert(parts[1]@ == t[1]);
        if same_text(&parts[0], "dostuff") {
            let mut args: Vec<String> = Vec::new();
            let mut j: usize = 2;
            while j < parts.len()
                invariant
                    2 <= j <= parts@.len(),
                    t == parts.deep_view(),
                    args.deep_view() == t.subrange(2, j as int),
                decreases parts@.len() - j,
            {
                let ghost before = args.deep_view();
                let a = parts[j].clone();
                assert(a@ == t[j as int]);
                args.push(a);
                assert(args.deep_view() =~= before.push(t[j as int]));
                assert(args.deep_view() =~= t.subrange(2, j + 1));
                j = j + 1;
            }
            return Taske::Execute(TaskExecutable { command: parts[1].clone(), args });
        }
        if same_text(&parts[0], "write") {
            let mut data: Vec<u8> = Vec::new();
            let mut j: usize = 2;
            while j < parts.len()
                invariant
                    2 <= j <= parts@.len(),
                    t == parts.deep_view(),
                    data@ == write_data(t.subrange(2, j as int)),
                decreases parts@.len() - j,
            {
                let word = parts[j].as_str().as_bytes();
                let ghost base = data@;
                let mut i: usize = 0;
                while i < word.len()
                    invariant
                        i <= word@.len(),
                        data@ == base + word@.subrange(0, i as int),
                    decreases word@.len() - i,
                {
                    data.push(word[i]);
                    i = i + 1;
                    assert(data@ =~= base + word@.subrange(0, i as int));
                }
                data.push(32);
                assert(word@.subrange(0, i as int) =~= word@);
                assert(t.subrange(2, j + 1).drop_last() =~= t.subrange(2, j as int));
                assert(data@ =~= write_data(t.subrange(2, j + 1)));
                j = j + 1;
            }
            return Taske::Write(TaskWritable { filename: parts[1].clone(), data });
        }
        Taske::Empty
    }
}

} // verus!
