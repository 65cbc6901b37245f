//! External programs to run, as the library describes them, and what is made
//! of a finished child process.

use vstd::prelude::*;
use vstd::string::*;
use vstd::utf8::*;

verus! {

/// A program and its arguments, in the order in which they are passed.
pub struct CommandLine {
    pub program: String,
    pub args: Vec<String>,
}

/// The mathematical content of a [`CommandLine`].
pub struct CommandView {
    pub program: Seq<char>,
    pub args: Seq<Seq<char>>,
}

/// The characters of each string of `v`, in order.
pub open spec fn strings_view(v: Seq<String>) -> Seq<Seq<char>> {
    v.map_values(|s: String| s@)
}

impl View for CommandLine {
    type V = CommandView;

    open spec fn view(&self) -> CommandView {
        CommandView { program: self.program@, args: strings_view(self.args@) }
    }
}

/// A command line built from a program and an argument list.
pub open spec fn command_view(program: Seq<char>, args: Seq<Seq<char>>) -> CommandView {
    CommandView { program, args }
}

impl CommandLine {
    /// A command line that runs `program` with no arguments.
    pub fn new(program: &str) -> (c: CommandLine)
        ensures
            c@ == command_view(program@, seq![]),
    {
        let c = CommandLine { program: String::from_str(program), args: Vec::new() };
        assert(strings_view(c.args@) =~= seq![]);
        c
    }

    /// Appends one argument.
    pub fn arg(&mut self, a: String)
        ensures
            final(self)@ == command_view(old(self)@.program, old(self)@.args.push(a@)),
    {
        self.args.push(a);
        assert(strings_view(self.args@) =~= strings_view(old(self).args@).push(a@));
    }

    /// A copy of this command line.
    pub fn duplicate(&self) -> (c: CommandLine)
        ensures
            c@ == self@,
    {
        let args = self.args.clone();
        assert(strings_view(args@) =~= strings_view(self.args@)) by {
            assert forall|i: int| 0 <= i < args@.len() implies args@[i] == self.args@[i] by {
                assert(cloned::<String>(self.args[i], args[i]));
            }
        }
        CommandLine { program: self.program.clone(), args }
    }

    /// Appends one argument given as a string slice.
    pub fn arg_str(&mut self, a: &str)
        ensures
            final(self)@ == command_view(old(self)@.program, old(self)@.args.push(a@)),
    {
        self.arg(String::from_str(a));
    }
}

/// Why a child process counts as failed.
pub enum CommandError {
    /// The child ran, and did not exit with status 0 (`code` is `None` where
    /// a signal ended it).
    ExitedWithError { code: Option<i32> },
}

/// Whether a child process with exit code `code` succeeded: a process
/// succeeds exactly when it exits with code 0.
pub open spec fn exit_succeeded(code: Option<i32>) -> bool {
    code == Some(0i32)
}

/// Judges a finished child process by its exit code, handing back what it
/// wrote on stdout where it succeeded.
pub fn check_exit(code: Option<i32>, stdout: Vec<u8>) -> (r: Result<Vec<u8>, CommandError>)
    ensures
        r is Ok <==> exit_succeeded(code),
        r matches Ok(out) ==> out@ == stdout@,
        r matches Err(CommandError::ExitedWithError { code: c }) ==> c == code,
{
    match code {
        Some(c) => {
            if c == 0 {
                Ok(stdout)
            } else {
                Err(CommandError::ExitedWithError { code })
            }
        },
        None => Err(CommandError::ExitedWithError { code }),
    }
}

/// What `String::from_utf8_lossy` makes of `bytes`: the decoded text, with
/// U+FFFD in place of each invalid sequence.
pub uninterp spec fn utf8_lossy(bytes: Seq<u8>) -> Seq<char>;

/// `String::from_utf8`, with its error reduced to `None`: the bytes are
/// taken as text exactly when they are valid UTF-8, and the text is what
/// they encode.
#[verifier::external_body]
fn string_from_utf8(data: Vec<u8>) -> (r: Option<String>)
    ensures
        r is Some <==> valid_utf8(data@),
        r matches Some(s) ==> s@ == decode_utf8(data@),
{
    match String::from_utf8(data) {
        Ok(s) => Some(s),
        Err(_) => None,
    }
}

/// `String::from_utf8_lossy`, owned. Its result is named by `utf8_lossy`;
/// the documentation promises that valid UTF-8 is decoded unchanged.
#[verifier::external_body]
fn string_from_utf8_lossy(data: &Vec<u8>) -> (r: String)
    ensures
        r@ == utf8_lossy(data@),
        valid_utf8(data@) ==> r@ == decode_utf8(data@),
{
    String::from_utf8_lossy(data.as_slice()).into_owned()
}

/// Bytes that were expected to be UTF-8 text and were not.
pub struct InvalidUtf8 {
    /// The bytes, decoded with U+FFFD in place of each invalid sequence.
    pub lossy: String,
}

/// Reads bytes received from a child process as UTF-8 text.
pub fn from_utf8(data: Vec<u8>) -> (r: Result<String, InvalidUtf8>)
    ensures
        r is Ok <==> valid_utf8(data@),
        r matches Ok(s) ==> s@ == decode_utf8(data@),
        r matches Err(e) ==> e.lossy@ == utf8_lossy(data@),
{
    let lossy_source = data.clone();
    assert(lossy_source@ == data@);
    match string_from_utf8(data) {
        Some(s) => Ok(s),
        None => Err(InvalidUtf8 { lossy: string_from_utf8_lossy(&lossy_source) }),
    }
}

} // verus!
