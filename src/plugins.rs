use vstd::prelude::*;
use vstd::string::StrSliceExecFns;
use crate::apps::App;
use crate::text::{trim, starts_with_char, chars_of, trim_span};

verus! {

/// What a handler asks for once it has an input.
#[derive(Debug, Clone, PartialEq, Eq)]
pub enum Request {
    /// Nothing to run: the outcome is an empty output.
    Done,
    /// Run this command line.
    Run(String),
}

pub enum RequestView {
    Done,
    Run(Seq<char>),
}

impl View for Request {
    type V = RequestView;

    open spec fn view(&self) -> RequestView {
        match self {
            Request::Done => RequestView::Done,
            Request::Run(s) => RequestView::Run(s@),
        }
    }
}

pub open spec fn opt_request_view(r: Option<Request>) -> Option<RequestView> {
    match r {
        Some(q) => Some(q@),
        None => None,
    }
}

/// A handler decides whether an input is its own and what running it means.
pub trait Plugin {
    spec fn claims(&self, input: Seq<char>) -> bool;

    spec fn request_for(&self, input: Seq<char>) -> RequestView;

    fn can_handle(&self, input: &str) -> (r: bool)
        ensures
            r == self.claims(input@),
    ;

    fn execute(&self, input: &str) -> (r: Request)
        ensures
            r@ == self.request_for(input@),
    ;
}

/// The text with every leading `>` removed.
pub open spec fn strip_markers(s: Seq<char>) -> Seq<char>
    decreases s.len(),
{
    if s.len() > 0 && s[0] == '>' {
        strip_markers(s.drop_first())
    } else {
        s
    }
}

/// The command that a `>` input carries: trimmed, markers removed, trimmed
/// again.
pub open spec fn command_text(input: Seq<char>) -> Seq<char> {
    trim(strip_markers(trim(input)))
}

/// Runs the text after the `>` marker as a command.
#[derive(Debug, Clone, Copy)]
pub struct Shell;

impl Plugin for Shell {
    open spec fn claims(&self, input: Seq<char>) -> bool {
        starts_with_char(trim(input), '>')
    }

    open spec fn request_for(&self, input: Seq<char>) -> RequestView {
        if command_text(input).len() == 0 {
            RequestView::Done
        } else {
            RequestView::Run(command_text(input))
        }
    }

    fn can_handle(&self, input: &str) -> (r: bool) {
        let cs = chars_of(input);
        let (a, b) = trim_span(&cs, 0, cs.len());
        assert(cs@.subrange(0, cs@.len() as int) =~= input@);
        a < b && cs[a] == '>'
    }

    fn execute(&self, input: &str) -> (r: Request) {
        let cs = chars_of(input);
        let (a, b) = trim_span(&cs, 0, cs.len());
        assert(cs@.subrange(0, cs@.len() as int) =~= input@);
        let mut m: usize = a;
        while m < b && cs[m] == '>'
            invariant
                a <= m <= b <= cs@.len(),
                strip_markers(cs@.subrange(m as int, b as int)) == strip_markers(
                    cs@.subrange(a as int, b as int),
                ),
            decreases b - m,
        {
            assert(cs@.subrange(m as int, b as int).drop_first() =~= cs@.subrange(
                m + 1,
                b as int,
            ));
            m = m + 1;
        }
        let (x, y) = trim_span(&cs, m, b);
        if x == y {
            Request::Done
        } else {
            Request::Run(input.substring_char(x, y).to_owned())
        }
    }
}

/// Launches an application's command; it claims no raw input.
#[derive(Debug, Clone, Copy)]
pub struct AppPlugin;

impl Plugin for AppPlugin {
    open spec fn claims(&self, input: Seq<char>) -> bool {
        false
    }

    open spec fn request_for(&self, input: Seq<char>) -> RequestView {
        if input.len() == 0 {
            RequestView::Done
        } else {
            RequestView::Run(input)
        }
    }

    fn can_handle(&self, input: &str) -> (r: bool) {
        false
    }

    fn execute(&self, input: &str) -> (r: Request) {
        if input.is_empty() {
            Request::Done
        } else {
            Request::Run(input.to_owned())
        }
    }
}

/// One registered handler.
#[derive(Debug, Clone, Copy)]
pub enum Handler {
    Command(Shell),
    Application(AppPlugin),
}

impl Plugin for Handler {
    open spec fn claims(&self, input: Seq<char>) -> bool {
        match self {
            Handler::Command(s) => s.claims(input),
            Handler::Application(a) => a.claims(input),
        }
    }

    open spec fn request_for(&self, input: Seq<char>) -> RequestView {
        match self {
            Handler::Command(s) => s.request_for(input),
            Handler::Application(a) => a.request_for(input),
        }
    }

    fn can_handle(&self, input: &str) -> (r: bool) {
        match self {
            Handler::Command(s) => s.can_handle(input),
            Handler::Application(a) => a.can_handle(input),
        }
    }

    fn execute(&self, input: &str) -> (r: Request) {
        match self {
            Handler::Command(s) => s.execute(input),
            Handler::Application(a) => a.execute(input),
        }
    }
}

/// The handlers in their fixed order of priority: commands, then
/// applications.
pub fn default_handlers() -> (r: Vec<Handler>)
    ensures
        r@ == seq![Handler::Command(Shell), Handler::Application(AppPlugin)],
{
    let mut v: Vec<Handler> = Vec::new();
    v.push(Handler::Command(Shell));
    v.push(Handler::Application(AppPlugin));
    assert(v@ =~= seq![Handler::Command(Shell), Handler::Application(AppPlugin)]);
    v
}

/// The position of the first handler from `i` on that claims the input.
pub open spec fn first_claimant(hs: Seq<Handler>, input: Seq<char>, i: int) -> Option<int>
    decreases hs.len() - i,
{
    if i < 0 || i >= hs.len() {
        None
    } else if hs[i].claims(input) {
        Some(i)
    } else {
        first_claimant(hs, input, i + 1)
    }
}

/// The command of the selected application, if one is selected.
pub open spec fn fallback_command(fallback: Option<&App>) -> Option<Seq<char>> {
    match fallback {
        Some(app) => Some(app.exec_path@),
        None => None,
    }
}

/// Dispatch: the first handler that claims the input runs it; when none
/// does, the selected application is launched; with no selection nothing
/// happens.
pub open spec fn dispatch(hs: Seq<Handler>, input: Seq<char>, fallback: Option<Seq<char>>) -> Option<
    RequestView,
> {
    match first_claimant(hs, input, 0) {
        Some(k) => Some(hs[k].request_for(input)),
        None => match fallback {
            Some(cmd) => Some(AppPlugin.request_for(cmd)),
            None => None,
        },
    }
}

/// Finds the handler for `raw_input` and asks it for its request; `None`
/// when no handler claims it and nothing is selected.
pub fn resolve_and_run(handlers: &Vec<Handler>, raw_input: &str, fallback: Option<&App>) -> (r:
    Option<Request>)
    ensures
        opt_request_view(r) == dispatch(handlers@, raw_input@, fallback_command(fallback)),
{
    let mut i: usize = 0;
    while i < handlers.len()
        invariant
            i <= handlers@.len(),
            first_claimant(handlers@, raw_input@, i as int) == first_claimant(
                handlers@,
                raw_input@,
                0,
            ),
        decreases handlers@.len() - i,
    {
        if handlers[i].can_handle(raw_input) {
            return Some(handlers[i].execute(raw_input));
        }
        i = i + 1;
    }
    match fallback {
        Some(app) => Some(AppPlugin.execute(app.exec_path.as_str())),
        None => None,
    }
}

/// First match wins: when the command handler comes first and the trimmed
/// input starts with `>`, the command handler's request is the result,
/// whatever the later handlers claim and whatever is selected; launching
/// the selection never happens.
pub proof fn lemma_command_prefix_wins(
    hs: Seq<Handler>,
    input: Seq<char>,
    fallback: Option<Seq<char>>,
)
    requires
        hs.len() > 0,
        hs[0] is Command,
        starts_with_char(trim(input), '>'),
    ensures
        dispatch(hs, input, fallback) == Some(Shell.request_for(input)),
{
}

} // verus!
