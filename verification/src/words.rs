//! The command to run: the words given on the command line, else the words of
//! the configured default command.
use vstd::prelude::*;
use crate::quote::sh_quoted;

verus! {

#[verifier::external_type_specification]
#[verifier::external_body]
pub struct ExShellWordsParseError(shell_words::ParseError);

/// The words that `shell_words::split` reads from `line` (quote removal, no
/// other expansion), none when it refuses `line`.
pub uninterp spec fn shell_words_split(line: Seq<char>) -> Option<Seq<Seq<char>>>;

/// The characters of each string in `v`.
pub open spec fn texts(v: Seq<String>) -> Seq<Seq<char>> {
    v.map_values(|s: String| s@)
}

/// `shell_words::split`: splits `line` into words as a POSIX shell would, with
/// quote removal as the only expansion, and fails on an unmatched quote.
/// The contract ties its result to `shell_words_split(line@)`, and states one
/// fact of it that its source shows: a line that is one single-quoted word, each
/// `'` of the value written `'\''`, reads back as that one value (inside single
/// quotes every character is kept; outside them a backslash keeps the next
/// character). Nothing else is stated of which words other lines give.
#[verifier::external_body]
fn split_words(line: &str) -> (r: Result<Vec<String>, shell_words::ParseError>)
    ensures
        r is Ok <==> shell_words_split(line@) is Some,
        r matches Ok(ws) ==> texts(ws@) == shell_words_split(line@).unwrap(),
        r is Err ==> forall|v: Seq<char>| line@ != #[trigger] sh_quoted(v),
        r matches Ok(ws) ==> forall|v: Seq<char>|
            line@ == #[trigger] sh_quoted(v) ==> texts(ws@) == seq![v],
{
    shell_words::split(line)
}

pub open spec fn invalid_command_error() -> Seq<char> {
    "Invalid default_command in config: missing closing quote"@
}

pub open spec fn empty_command_error() -> Seq<char> {
    "default_command cannot be empty"@
}

/// The command made of the words of the default command: refused when they
/// could not be read (an unmatched quote) or when there are none.
pub fn parts_from_words(words: Option<Vec<String>>) -> (r: Result<Vec<String>, String>)
    ensures
        words is None ==> (r matches Err(e) && e@ == invalid_command_error()),
        words matches Some(ws) ==> (ws@.len() == 0 ==> (r matches Err(e) && e@
            == empty_command_error())),
        words matches Some(ws) ==> (ws@.len() > 0 ==> r == Ok::<Vec<String>, String>(ws)),
{
    match words {
        None => Err(String::from_str("Invalid default_command in config: missing closing quote")),
        Some(ws) => {
            if ws.len() == 0 {
                Err(String::from_str("default_command cannot be empty"))
            } else {
                Ok(ws)
            }
        },
    }
}

/// The program and arguments to run: `cmd` when it is not empty, else the
/// words of `default_command`; a default command that is one value quoted by
/// `sh_single_quote` runs that value as the program.
pub fn command_parts(cmd: Vec<String>, default_command: &str) -> (r: Result<Vec<String>, String>)
    ensures
        cmd@.len() > 0 ==> r == Ok::<Vec<String>, String>(cmd),
        cmd@.len() == 0 ==> match shell_words_split(default_command@) {
            None => r matches Err(e) && e@ == invalid_command_error(),
            Some(ws) => if ws.len() == 0 {
                r matches Err(e) && e@ == empty_command_error()
            } else {
                r matches Ok(parts) && texts(parts@) == ws
            },
        },
        cmd@.len() == 0 ==> forall|v: Seq<char>|
            default_command@ == #[trigger] sh_quoted(v) ==> (r matches Ok(parts) && texts(parts@)
                == seq![v]),
{
    if cmd.len() > 0 {
        return Ok(cmd);
    }
    let words = match split_words(default_command) {
        Ok(ws) => Some(ws),
        Err(_) => None,
    };
    parts_from_words(words)
}

} // verus!
