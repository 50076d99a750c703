use vstd::prelude::*;
use vstd::string::StringExecFns;
use crate::text::{same_text, split_on, split_text};

verus! {

/// The settings read once at start-up: a name, and the directory in which
/// commands are looked up.
pub struct Config {
    pub name: String,
    pub exec_path: String,
}

impl View for Config {
    type V = (Seq<char>, Seq<char>);

    open spec fn view(&self) -> (Seq<char>, Seq<char>) {
        (self.name@, self.exec_path@)
    }
}

/// A line without the carriage return that ended it.
pub open spec fn strip_cr(line: Seq<char>) -> Seq<char> {
    if line.len() > 0 && line.last() == '\r' {
        line.drop_last()
    } else {
        line
    }
}

/// Line `j` of the pieces of a text split at line feeds; a carriage return
/// before a line feed belongs to the line ending.
pub open spec fn config_line(pieces: Seq<Seq<char>>, j: int) -> Seq<char> {
    if j + 1 < pieces.len() {
        strip_cr(pieces[j])
    } else {
        pieces[j]
    }
}

/// The settings after one `key=value` line: only `name` and `exec_path`
/// count, the value ends at the next `=`, and a line without `=` is skipped.
pub open spec fn apply_line(c: (Seq<char>, Seq<char>), line: Seq<char>) -> (Seq<char>, Seq<char>) {
    let parts = split_on(line, '=');
    if parts.len() < 2 {
        c
    } else if parts[0] == "name"@ {
        (parts[1], c.1)
    } else if parts[0] == "exec_path"@ {
        (c.0, parts[1])
    } else {
        c
    }
}

/// The settings after the first `n` lines.
pub open spec fn parse_lines(pieces: Seq<Seq<char>>, n: nat) -> (Seq<char>, Seq<char>)
    decreases n,
{
    if n == 0 {
        (Seq::empty(), Seq::empty())
    } else {
        apply_line(parse_lines(pieces, (n - 1) as nat), config_line(pieces, n - 1))
    }
}

/// The settings that the text of a configuration file gives.
pub open spec fn parsed_config(s: Seq<char>) -> (Seq<char>, Seq<char>) {
    let pieces = split_on(s, '\n');
    parse_lines(pieces, pieces.len())
}

impl Config {
    /// Empty settings.
    pub fn new() -> (r: Config)
        ensures
            r@ == (Seq::<char>::empty(), Seq::<char>::empty()),
    {
        Config { name: String::new(), exec_path: String::new() }
    }

    /// The name and the exec path on two lines.
    pub fn to_string(&self) -> (r: String)
        ensures
            r@ == self.name@ + seq!['\n'] + self.exec_path@,
    {
        let mut r = self.name.clone();
        r.append("\n");
        r.append(self.exec_path.as_str());
        proof {
            reveal_strlit("\n");
        }
        r
    }
}

fn without_cr(line: &String) -> (r: String)
    ensures
        r@ == strip_cr(line@),
{
    let n = line.as_str().unicode_len();
    if n > 0 && line.as_str().get_char(n - 1) == '\r' {
        let r = line.as_str().substring_char(0, n - 1).to_owned();
        assert(r@ =~= line@.drop_last());
        r
    } else {
        line.clone()
    }
}

/// Reads `key=value` lines; recognises `name` and `exec_path`, and a later
/// line overrides an earlier one.
pub fn parse_config(content: &String) -> (r: Config)
    ensures
        r@ == parsed_config(content@),
{
    let mut conf = Config::new();
    let pieces = split_text(content.as_str(), '\n');
    let ghost p = pieces.deep_view();
    let mut j: usize = 0;
    while j < pieces.len()
        invariant
            j <= pieces@.len(),
            p == pieces.deep_view(),
            p == split_on(content@, '\n'),
            conf@ == parse_lines(p, j as nat),
        decreases pieces@.len() - j,
    {
        assert(pieces[j as int]@ == p[j as int]);
        let line = if j + 1 < pieces.len() {
            without_cr(&pieces[j])
        } else {
            pieces[j].clone()
        };
        assert(line@ == config_line(p, j as int));
        let parts = split_text(line.as_str(), '=');
        let ghost q = parts.deep_view();
        if parts.len() >= 2 {
            assert(parts[0]@ == q[0]);
            assert(parts[1]@ == q[1]);
            if same_text(&parts[0], "name") {
                conf.name = parts[1].clone();
            } else if same_text(&parts[0], "exec_path") {
                conf.exec_path = parts[1].clone();
            }
        }
        j = j + 1;
    }
    conf
}

} // verus!
