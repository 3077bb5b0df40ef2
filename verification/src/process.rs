//! Running other programs.
use crate::text;
use vstd::prelude::*;
use vstd::utf8;

verus! {

/// What a program that has ended leaves behind.
#[derive(Debug)]
pub struct Output {
    /// Whether it ended without failure
    pub success: bool,
    pub stdout: Vec<u8>,
    pub stderr: Vec<u8>,
}

/// A program to run.
#[derive(Debug)]
pub struct Command {
    pub program: String,
    pub args: Vec<String>,
    /// Where to run it, if not in the current directory
    pub current_dir: Option<String>,
}

/// What a [`Command`] holds.
#[verifier::ext_equal]
pub struct CommandView {
    pub program: Seq<char>,
    pub args: Seq<Seq<char>>,
    pub current_dir: Option<Seq<char>>,
}

impl View for Command {
    type V = CommandView;

    open spec fn view(&self) -> CommandView {
        CommandView {
            program: self.program@,
            args: text::texts(self.args@),
            current_dir: text::opt_text(self.current_dir),
        }
    }
}

impl Command {
    /// A program without arguments
    pub fn new(program: &str) -> (res: Self)
        ensures
            res@ == (CommandView {
                program: program@,
                args: Seq::empty(),
                current_dir: None,
            }),
    {
        let res = Command { program: program.to_string(), args: Vec::new(), current_dir: None };
        assert(text::texts(res.args@) =~= Seq::<Seq<char>>::empty());
        res
    }

    /// Adds an argument
    pub fn arg(&mut self, arg: &str)
        ensures
            final(self)@ == (CommandView { args: old(self)@.args.push(arg@), ..old(self)@ }),
    {
        let ghost before = self.args@;
        let item: String = arg.to_string();
        self.args.push(item);
        assert(text::texts(self.args@) =~= text::texts(before).push(arg@));
    }

    /// Sets where to run the program
    pub fn current_dir(&mut self, dir: &str)
        ensures
            final(self)@ == (CommandView { current_dir: Some(dir@), ..old(self)@ }),
    {
        self.current_dir = Some(dir.to_string());
    }
}

/// What `String::from_utf8_lossy` makes of bytes.
pub uninterp spec fn utf8_lossy(bytes: Seq<u8>) -> Seq<char>;

/// Reads bytes as UTF-8 with `String::from_utf8_lossy`.
///
/// Bytes that are valid UTF-8 give the text that they encode. Of others it is only said that
/// the same bytes always give the same text.
#[verifier::external_body]
pub(crate) fn read_lossy(bytes: &Vec<u8>) -> (res: String)
    ensures
        res@ == utf8_lossy(bytes@),
        utf8::valid_utf8(bytes@) ==> res@ == utf8::decode_utf8(bytes@),
{
    String::from_utf8_lossy(bytes).into_owned()
}

/// Reads bytes as UTF-8 with `std::str::from_utf8`.
///
/// There is a text just where the bytes are valid UTF-8, and it is the one that they encode.
#[verifier::external_body]
pub(crate) fn read_utf8(bytes: &Vec<u8>) -> (res: Option<String>)
    ensures
        match res {
            Some(text) => utf8::valid_utf8(bytes@) && text@ == utf8::decode_utf8(bytes@),
            None => !utf8::valid_utf8(bytes@),
        },
{
    std::str::from_utf8(bytes).ok().map(|text| text.to_string())
}

} // verus!
