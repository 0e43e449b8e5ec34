use vstd::prelude::*;

verus! {

/// What the prompt loop is asked to do.
#[derive(PartialEq, Eq, Structural, Debug, Clone, Copy)]
pub enum Command {
    Quit,
    ReadPage,
    List,
    ListAll,
    /// Nothing to do: an empty line or a greeting.
    Idle,
    New,
    Delete,
    Note,
    ReadAll,
    ReadEven,
    ReadOdd,
    ReadFor,
    Finish,
    Clear,
    Help,
    Invalid,
}

/// The command that a lower-case word names.
pub open spec fn command_spec(w: Seq<char>) -> Command {
    if w == "quit"@ || w == "exit"@ || w == "q"@ {
        Command::Quit
    } else if w == "readpage"@ || w == "rdp"@ {
        Command::ReadPage
    } else if w == "ls"@ || w == "list"@ {
        Command::List
    } else if w == "la"@ || w == "listall"@ {
        Command::ListAll
    } else if w == "welcome"@ || w == ""@ {
        Command::Idle
    } else if w == "touch"@ || w == "new"@ {
        Command::New
    } else if w == "delete"@ || w == "rm"@ || w == "del"@ {
        Command::Delete
    } else if w == "note"@ || w == "nt"@ {
        Command::Note
    } else if w == "readall"@ || w == "rda"@ {
        Command::ReadAll
    } else if w == "readeven"@ || w == "rde"@ {
        Command::ReadEven
    } else if w == "readodd"@ || w == "rdo"@ {
        Command::ReadOdd
    } else if w == "readfor"@ || w == "rdf"@ {
        Command::ReadFor
    } else if w == "finish"@ || w == "fsh"@ {
        Command::Finish
    } else if w == "clear"@ || w == "clean"@ || w == "c"@ {
        Command::Clear
    } else if w == "help"@ || w == "h"@ {
        Command::Help
    } else {
        Command::Invalid
    }
}

/// What std's lower-casing makes of a string.
pub uninterp spec fn lower_of(s: Seq<char>) -> Seq<char>;

/// Relies on str::to_lowercase: the result depends on the characters alone.
#[verifier::external_body]
fn lowercase(s: &str) -> (r: String)
    ensures
        r@ == lower_of(s@),
{
    s.to_lowercase()
}

/// Whether two strings hold the same characters.
pub fn same_text(a: &str, b: &str) -> (r: bool)
    ensures
        r == (a@ == b@),
{
    let n: usize = a.unicode_len();
    if n != b.unicode_len() {
        return false;
    }
    let mut i: usize = 0;
    while i < n
        invariant
            n == a@.len() == b@.len(),
            0 <= i <= n,
            forall|j: int| 0 <= j < i ==> a@[j] == b@[j],
        decreases n - i,
    {
        if a.get_char(i) != b.get_char(i) {
            return false;
        }
        i = i + 1;
    }
    assert(a@ =~= b@);
    true
}

/// The command that a word, already in lower case, names.
pub fn command_of(word: &str) -> (r: Command)
    ensures
        r == command_spec(word@),
{
    if same_text(word, "quit") || same_text(word, "exit") || same_text(word, "q") {
        Command::Quit
    } else if same_text(word, "readpage") || same_text(word, "rdp") {
        Command::ReadPage
    } else if same_text(word, "ls") || same_text(word, "list") {
        Command::List
    } else if same_text(word, "la") || same_text(word, "listall") {
        Command::ListAll
    } else if same_text(word, "welcome") || same_text(word, "") {
        Command::Idle
    } else if same_text(word, "touch") || same_text(word, "new") {
        Command::New
    } else if same_text(word, "delete") || same_text(word, "rm") || same_text(word, "del") {
        Command::Delete
    } else if same_text(word, "note") || same_text(word, "nt") {
        Command::Note
    } else if same_text(word, "readall") || same_text(word, "rda") {
        Command::ReadAll
    } else if same_text(word, "readeven") || same_text(word, "rde") {
        Command::ReadEven
    } else if same_text(word, "readodd") || same_text(word, "rdo") {
        Command::ReadOdd
    } else if same_text(word, "readfor") || same_text(word, "rdf") {
        Command::ReadFor
    } else if same_text(word, "finish") || same_text(word, "fsh") {
        Command::Finish
    } else if same_text(word, "clear") || same_text(word, "clean") || same_text(word, "c") {
        Command::Clear
    } else if same_text(word, "help") || same_text(word, "h") {
        Command::Help
    } else {
        Command::Invalid
    }
}

/// The command that a line typed at the prompt names, whatever its case.
pub fn parse_command(input: &str) -> (r: Command)
    ensures
        r == command_spec(lower_of(input@)),
{
    let lowered = lowercase(input);
    command_of(lowered.as_str())
}

impl Command {
    /// The first note and the step of the walks over a book's notes that a
    /// command asks for with no further input.
    pub fn stride(&self) -> (r: Option<(u16, u16)>)
        ensures
            *self == Command::ReadAll ==> r == Some((0u16, 1u16)),
            *self == Command::ReadEven ==> r == Some((0u16, 2u16)),
            *self == Command::ReadOdd ==> r == Some((1u16, 2u16)),
            *self != Command::ReadAll && *self != Command::ReadEven && *self != Command::ReadOdd
                ==> r is None,
    {
        match self {
            Command::ReadAll => Some((0, 1)),
            Command::ReadEven => Some((0, 2)),
            Command::ReadOdd => Some((1, 2)),
            _ => None,
        }
    }
}

/// `s` without one trailing line feed, then one trailing carriage return, then
/// any trailing spaces.
pub open spec fn trimmed(s: Seq<char>) -> Seq<char> {
    trim_spaces(strip_last(strip_last(s, '\n'), '\r'))
}

pub open spec fn strip_last(s: Seq<char>, c: char) -> Seq<char> {
    if s.len() > 0 && s.last() == c {
        s.drop_last()
    } else {
        s
    }
}

pub open spec fn trim_spaces(s: Seq<char>) -> Seq<char>
    decreases s.len(),
{
    if s.len() > 0 && s.last() == ' ' {
        trim_spaces(s.drop_last())
    } else {
        s
    }
}

/// A line as read from the prompt, without its line ending and trailing spaces.
pub fn trim_input(input: &str) -> (r: String)
    ensures
        r@ == trimmed(input@),
{
    let mut e: usize = input.unicode_len();
    if e > 0 && input.get_char(e - 1) == '\n' {
        e = e - 1;
    }
    if e > 0 && input.get_char(e - 1) == '\r' {
        e = e - 1;
    }
    let ghost base = input@.subrange(0, e as int);
    proof {
        let s1 = strip_last(input@, '\n');
        assert(base =~= strip_last(s1, '\r'));
    }
    while e > 0 && input.get_char(e - 1) == ' '
        invariant
            e <= input@.len(),
            base.len() <= input@.len(),
            e <= base.len(),
            base == input@.subrange(0, base.len() as int),
            trim_spaces(input@.subrange(0, e as int)) == trim_spaces(base),
        decreases e,
    {
        assert(input@.subrange(0, e as int).drop_last() =~= input@.subrange(0, e - 1));
        e = e - 1;
    }
    let r = String::from_str(input.substring_char(0, e));
    r
}

} // verus!
