use vstd::prelude::*;
use vstd::string::StringExecFns;
use vstd::utf8::{valid_utf8, decode_utf8};
use crate::text::texts;

verus! {

#[verifier::external_type_specification]
#[verifier::external_body]
pub struct ExParseError(shell_words::ParseError);

/// The words that `shell_words::split` makes of a command line, or `None`
/// where it reports an unterminated quote.
pub uninterp spec fn shell_split(s: Seq<char>) -> Option<Seq<Seq<char>>>;

/// What `String::from_utf8` reports, as text, for bytes that are not UTF-8.
pub uninterp spec fn utf8_error_text(b: Seq<u8>) -> Seq<char>;

/// What `String::from_utf8_lossy` makes of a byte string.
pub uninterp spec fn lossy_text(b: Seq<u8>) -> Seq<char>;

/// Relies on `shell_words::split`: shell-style word splitting with quote
/// removal, which fails on an unterminated quote.
#[verifier::external_body]
fn split_words(s: &str) -> (r: Result<Vec<String>, shell_words::ParseError>)
    ensures
        r is Ok <==> shell_split(s@) is Some,
        r matches Ok(ws) ==> texts(ws@) == shell_split(s@)->Some_0,
{
    shell_words::split(s)
}

/// Relies on `String::from_utf8`: it accepts exactly the well-formed UTF-8
/// byte strings and decodes them; otherwise the error's text is returned.
#[verifier::external_body]
fn strict_utf8(b: Vec<u8>) -> (r: Result<String, String>)
    ensures
        r is Ok <==> valid_utf8(b@),
        r matches Ok(s) ==> s@ == decode_utf8(b@),
        r matches Err(e) ==> e@ == utf8_error_text(b@),
{
    String::from_utf8(b).map_err(|e| e.to_string())
}

/// Relies on `String::from_utf8_lossy`: invalid sequences become U+FFFD, and
/// well-formed UTF-8 is decoded unchanged.
#[verifier::external_body]
fn lenient_utf8(b: &Vec<u8>) -> (r: String)
    ensures
        r@ == lossy_text(b@),
        valid_utf8(b@) ==> r@ == decode_utf8(b@),
{
    String::from_utf8_lossy(b.as_slice()).into_owned()
}

pub open spec fn digit(d: int) -> char {
    seq!['0', '1', '2', '3', '4', '5', '6', '7', '8', '9'][d]
}

/// The decimal digits of `n`.
pub open spec fn digits(n: nat) -> Seq<char>
    decreases n,
{
    if n < 10 {
        seq![digit(n as int)]
    } else {
        digits(n / 10).push(digit((n % 10) as int))
    }
}

/// `n` in decimal, with a leading `-` when negative.
pub open spec fn int_text(n: int) -> Seq<char> {
    if n < 0 {
        seq!['-'] + digits((-n) as nat)
    } else {
        digits(n as nat)
    }
}

/// An exit code as `Debug` writes an `Option<i32>`.
pub open spec fn status_text(code: Option<i32>) -> Seq<char> {
    match code {
        Some(c) => seq!['S', 'o', 'm', 'e', '('] + int_text(c as int) + seq![')'],
        None => seq!['N', 'o', 'n', 'e'],
    }
}

pub open spec fn parse_error_text() -> Seq<char> {
    "Parse error: missing closing quote"@
}

pub open spec fn unknown_error_text() -> Seq<char> {
    "Unknown error"@
}

/// The error for a failed run that wrote nothing to standard error.
pub open spec fn failed_text(code: Option<i32>) -> Seq<char> {
    "Command failed with status "@ + status_text(code)
}

pub open spec fn result_view(r: Result<String, String>) -> Result<Seq<char>, Seq<char>> {
    match r {
        Ok(s) => Ok(s@),
        Err(e) => Err(e@),
    }
}

/// What a command line comes to before any process exists.
#[derive(Debug, PartialEq, Eq)]
pub enum CommandPlan {
    /// Nothing is to run; this is the outcome.
    Finished(Result<String, String>),
    /// Start `program` with `args`, passed as they are.
    Spawn { program: String, args: Vec<String> },
}

pub enum PlanView {
    Finished(Result<Seq<char>, Seq<char>>),
    Spawn(Seq<char>, Seq<Seq<char>>),
}

impl View for CommandPlan {
    type V = PlanView;

    open spec fn view(&self) -> PlanView {
        match self {
            CommandPlan::Finished(r) => PlanView::Finished(result_view(*r)),
            CommandPlan::Spawn { program, args } => PlanView::Spawn(program@, texts(args@)),
        }
    }
}

/// The plan for the words of a command line, `None` standing for an
/// unterminated quote: that is a parse error, no words succeed with no
/// output, and otherwise the first word names the program and the rest are
/// its arguments.
pub open spec fn plan_of_words(words: Option<Seq<Seq<char>>>) -> PlanView {
    match words {
        None => PlanView::Finished(Err(parse_error_text())),
        Some(ws) => if ws.len() == 0 {
            PlanView::Finished(Ok(Seq::empty()))
        } else {
            PlanView::Spawn(ws[0], ws.drop_first())
        },
    }
}

/// The plan for a command line: an empty line succeeds with no output,
/// anything else goes by its shell-style words.
pub open spec fn plan_of(line: Seq<char>) -> PlanView {
    if line.len() == 0 {
        PlanView::Finished(Ok(Seq::empty()))
    } else {
        plan_of_words(shell_split(line))
    }
}

pub open spec fn opt_texts(words: Option<Vec<String>>) -> Option<Seq<Seq<char>>> {
    match words {
        Some(ws) => Some(texts(ws@)),
        None => None,
    }
}

/// The outcome of a process that ran to its end, decoding its output
/// strictly: standard output on success, else standard error, else a
/// message with the exit status.
pub open spec fn outcome_of(success: bool, code: Option<i32>, out: Seq<u8>, err: Seq<u8>) -> Result<
    Seq<char>,
    Seq<char>,
> {
    if success {
        if valid_utf8(out) {
            Ok(decode_utf8(out))
        } else {
            Err(utf8_error_text(out))
        }
    } else if err.len() == 0 {
        Err(failed_text(code))
    } else if valid_utf8(err) {
        Err(decode_utf8(err))
    } else {
        Err(unknown_error_text())
    }
}

/// As `outcome_of`, for output handed back by a command interpreter and
/// decoded leniently.
pub open spec fn lenient_outcome_of(
    success: bool,
    code: Option<i32>,
    out: Seq<u8>,
    err: Seq<u8>,
) -> Result<Seq<char>, Seq<char>> {
    if success {
        Ok(lossy_text(out))
    } else if err.len() == 0 {
        Err(failed_text(code))
    } else {
        Err(lossy_text(err))
    }
}

/// Decides what a command line comes to: a finished outcome, or the program
/// and arguments to start without a shell in between.
pub fn plan_command(line: &str) -> (r: CommandPlan)
    ensures
        r@ == plan_of(line@),
{
    if line.is_empty() {
        return CommandPlan::Finished(Ok(String::new()));
    }
    let words = match split_words(line) {
        Ok(ws) => Some(ws),
        Err(_) => None,
    };
    plan_for_words(words)
}

/// The plan for the words of a command line, `None` standing for an
/// unterminated quote.
pub fn plan_for_words(words: Option<Vec<String>>) -> (r: CommandPlan)
    ensures
        r@ == plan_of_words(opt_texts(words)),
{
    match words {
        None => CommandPlan::Finished(Err(String::from_str("Parse error: missing closing quote"))),
        Some(words) => {
            let mut words = words;
            if words.len() == 0 {
                CommandPlan::Finished(Ok(String::new()))
            } else {
                let ghost before = words@;
                let program = words.remove(0);
                assert(texts(words@) =~= texts(before).drop_first());
                CommandPlan::Spawn { program, args: words }
            }
        },
    }
}

fn digit_str(d: u32) -> (r: &'static str)
    requires
        d < 10,
    ensures
        r@ == seq![digit(d as int)],
{
    match d {
        0 => {
            proof {
                reveal_strlit("0");
            }
            "0"
        },
        1 => {
            proof {
                reveal_strlit("1");
            }
            "1"
        },
        2 => {
            proof {
                reveal_strlit("2");
            }
            "2"
        },
        3 => {
            proof {
                reveal_strlit("3");
            }
            "3"
        },
        4 => {
            proof {
                reveal_strlit("4");
            }
            "4"
        },
        5 => {
            proof {
                reveal_strlit("5");
            }
            "5"
        },
        6 => {
            proof {
                reveal_strlit("6");
            }
            "6"
        },
        7 => {
            proof {
                reveal_strlit("7");
            }
            "7"
        },
        8 => {
            proof {
                reveal_strlit("8");
            }
            "8"
        },
        _ => {
            proof {
                reveal_strlit("9");
            }
            "9"
        },
    }
}

/// Appends the decimal digits of `n`.
fn push_digits(s: &mut String, n: u32)
    ensures
        final(s)@ == old(s)@ + digits(n as nat),
    decreases n,
{
    if n >= 10 {
        push_digits(s, n / 10);
    }
    s.append(digit_str(n % 10));
}

/// An exit code written as `Debug` writes an `Option<i32>`.
fn status_string(code: Option<i32>) -> (r: String)
    ensures
        r@ == status_text(code),
{
    proof {
        reveal_strlit("None");
        reveal_strlit("Some(");
        reveal_strlit("-");
        reveal_strlit(")");
    }
    match code {
        None => String::from_str("None"),
        Some(c) => {
            let mut s = String::from_str("Some(");
            let ghost head = s@;
            if c < 0 {
                s.append("-");
                push_digits(&mut s, (-(c as i64)) as u32);
            } else {
                push_digits(&mut s, c as u32);
            }
            assert(s@ =~= head + int_text(c as int));
            s.append(")");
            s
        },
    }
}

fn failure_message(code: Option<i32>) -> (r: String)
    ensures
        r@ == failed_text(code),
{
    let mut s = String::from_str("Command failed with status ");
    let status = status_string(code);
    s.append(status.as_str());
    s
}

/// The outcome of a process started from a plan, from its exit status and
/// the bytes it wrote.
pub fn finish_command(success: bool, code: Option<i32>, stdout: Vec<u8>, stderr: Vec<u8>) -> (r:
    Result<String, String>)
    ensures
        result_view(r) == outcome_of(success, code, stdout@, stderr@),
{
    if success {
        strict_utf8(stdout)
    } else if stderr.len() == 0 {
        Err(failure_message(code))
    } else {
        match strict_utf8(stderr) {
            Ok(text) => Err(text),
            Err(_) => Err(String::from_str("Unknown error")),
        }
    }
}

/// The outcome of a command line handed whole to a command interpreter,
/// from its exit status and the bytes it wrote.
pub fn finish_shell_command(success: bool, code: Option<i32>, stdout: Vec<u8>, stderr: Vec<u8>) -> (r:
    Result<String, String>)
    ensures
        result_view(r) == lenient_outcome_of(success, code, stdout@, stderr@),
{
    if success {
        Ok(lenient_utf8(&stdout))
    } else if stderr.len() == 0 {
        Err(failure_message(code))
    } else {
        Err(lenient_utf8(&stderr))
    }
}

} // verus!
