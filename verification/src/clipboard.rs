//! Putting text into the system clipboard with whatever tool there is.
use crate::text::slice_views;
use vstd::prelude::*;
#[allow(unused_imports)]
use vstd::string::*;

verus! {

/// A program that takes text on its standard input and puts it into the clipboard.
pub struct ClipboardTool {
    pub command: &'static str,
    pub args: Vec<&'static str>,
}

impl ClipboardTool {
    /// The command and its arguments, as text.
    pub open spec fn call(self) -> (Seq<char>, Seq<Seq<char>>) {
        (self.command@, slice_views(self.args@))
    }
}

/// The script that puts what it reads, as UTF-8, into the clipboard of Windows.
pub const WINDOWS_SCRIPT: &'static str =
    "$in = New-Object IO.StreamReader([Console]::OpenStandardInput(), [Text.Encoding]::UTF8); Set-Clipboard -Value $in.ReadToEnd()";

/// The tools and their arguments, in the order in which they are tried: those of Linux, or
/// the one that Windows has.
pub open spec fn tool_calls(windows: bool) -> Seq<(Seq<char>, Seq<Seq<char>>)> {
    if windows {
        seq![("powershell"@, seq!["-NoProfile"@, "-Command"@, WINDOWS_SCRIPT@])]
    } else {
        seq![
            ("wl-copy"@, Seq::empty()),
            ("xclip"@, seq!["-selection"@, "clipboard"@]),
            ("xsel"@, seq!["--clipboard"@, "--input"@]),
        ]
    }
}

/// How the attempt to use a tool went.
#[derive(Clone, Copy, Debug, PartialEq, Eq, Structural)]
pub enum Attempt {
    /// The tool could not be started.
    NotStarted,
    /// The tool was started, but has no standard input to write to.
    NoInput,
    /// The tool was started, but the text could not be written to it.
    WriteFailed,
    /// The text was written to the tool.
    Written,
}

impl Attempt {
    /// Whether the attempt counts as a success. The tool keeps running to own the
    /// clipboard, so nothing after the writing is waited for.
    pub open spec fn good(self) -> bool {
        self is NoInput || self is Written
    }
}

fn is_good(outcome: Attempt) -> (r: bool)
    ensures
        r == outcome.good(),
{
    match outcome {
        Attempt::NoInput | Attempt::Written => true,
        Attempt::NotStarted | Attempt::WriteFailed => false,
    }
}

/// What to do next to put a text into the clipboard.
pub enum CopyAction {
    /// Start the tool and write the input to it.
    Try { tool: ClipboardTool, input: String },
    /// Nothing more; whether a tool took the text.
    Done(bool),
}

/// What to do next, as the contracts see it: a command with its arguments and its input, or
/// the outcome.
pub enum CopyStep {
    Try { call: (Seq<char>, Seq<Seq<char>>), input: Seq<char> },
    Done(bool),
}

impl View for CopyAction {
    type V = CopyStep;

    open spec fn view(&self) -> CopyStep {
        match *self {
            CopyAction::Try { tool, input } => CopyStep::Try { call: tool.call(), input: input@ },
            CopyAction::Done(copied) => CopyStep::Done(copied),
        }
    }
}

/// Whether one of the attempts was a success.
pub open spec fn any_good(outcomes: Seq<Attempt>) -> bool {
    exists|i: int| 0 <= i < outcomes.len() && (#[trigger] outcomes[i]).good()
}

/// What is done after the given attempts: nothing more once one was a success, otherwise
/// the next tool is tried with the text, as long as there is one.
pub open spec fn next_step(windows: bool, text: Seq<char>, outcomes: Seq<Attempt>) -> CopyStep {
    if any_good(outcomes) {
        CopyStep::Done(true)
    } else if outcomes.len() < tool_calls(windows).len() {
        CopyStep::Try { call: tool_calls(windows)[outcomes.len() as int], input: text }
    } else {
        CopyStep::Done(false)
    }
}

fn tool_count(windows: bool) -> (r: usize)
    ensures
        r == tool_calls(windows).len(),
{
    if windows {
        1
    } else {
        3
    }
}

fn tool(i: usize, windows: bool) -> (r: ClipboardTool)
    requires
        i < tool_calls(windows).len(),
    ensures
        r.call() == tool_calls(windows)[i as int],
{
    let r = if windows {
        ClipboardTool { command: "powershell", args: vec!["-NoProfile", "-Command", WINDOWS_SCRIPT] }
    } else if i == 0 {
        ClipboardTool { command: "wl-copy", args: vec![] }
    } else if i == 1 {
        ClipboardTool { command: "xclip", args: vec!["-selection", "clipboard"] }
    } else {
        ClipboardTool { command: "xsel", args: vec!["--clipboard", "--input"] }
    };
    proof {
        assert(slice_views(r.args@) =~= tool_calls(windows)[i as int].1);
    }
    r
}

/// Puts a text into the clipboard, by trying the tools in turn until one takes it: says
/// what to do next, once the attempts so far have gone as given.
pub fn copy_to_clipboard(text: &str, outcomes: &[Attempt], windows: bool) -> (r: CopyAction)
    ensures
        r@ == next_step(windows, text@, outcomes@),
{
    for i in 0..outcomes.len()
        invariant
            forall|j: int| 0 <= j < i ==> !(#[trigger] outcomes@[j]).good(),
    {
        if is_good(outcomes[i]) {
            return CopyAction::Done(true);
        }
    }
    if outcomes.len() < tool_count(windows) {
        CopyAction::Try { tool: tool(outcomes.len(), windows), input: text.to_owned() }
    } else {
        CopyAction::Done(false)
    }
}

// ---------------------------------------------------------------------------
// What the search for a tool guarantees
// ---------------------------------------------------------------------------

/// Whether `runs` and `outcomes` are the commands run to copy a text, each with its input,
/// and how they went, from the first to the last, and `copied` is what that ends with.
pub open spec fn is_copying(
    windows: bool,
    text: Seq<char>,
    runs: Seq<((Seq<char>, Seq<Seq<char>>), Seq<char>)>,
    outcomes: Seq<Attempt>,
    copied: bool,
) -> bool {
    &&& runs.len() == outcomes.len()
    &&& forall|i: int|
        0 <= i < runs.len() ==> next_step(windows, text, outcomes.take(i)) == (CopyStep::Try {
            call: (#[trigger] runs[i]).0,
            input: runs[i].1,
        })
    &&& next_step(windows, text, outcomes) == CopyStep::Done(copied)
}

/// The tools are run in their order, each at most once and with exactly the text as its
/// input; none is run after one that took the text. The text counts as copied exactly if
/// the last one run took it, and it is given up only once all have been run.
pub proof fn tools_are_run_up_to_the_first_success(
    windows: bool,
    text: Seq<char>,
    runs: Seq<((Seq<char>, Seq<Seq<char>>), Seq<char>)>,
    outcomes: Seq<Attempt>,
    copied: bool,
)
    requires
        is_copying(windows, text, runs, outcomes, copied),
    ensures
        0 < runs.len() <= tool_calls(windows).len(),
        forall|i: int| 0 <= i < runs.len() ==> #[trigger] runs[i] == (tool_calls(windows)[i], text),
        forall|i: int| 0 <= i < runs.len() - 1 ==> !(#[trigger] outcomes[i]).good(),
        copied == outcomes.last().good(),
        !copied ==> runs.len() == tool_calls(windows).len(),
{
    let n = runs.len() as int;
    assert forall|i: int| 0 <= i < n implies {
        &&& !any_good(outcomes.take(i))
        &&& i < tool_calls(windows).len()
        &&& #[trigger] runs[i] == (tool_calls(windows)[i], text)
    } by {
        assert(next_step(windows, text, outcomes.take(i)) == (CopyStep::Try {
            call: runs[i].0,
            input: runs[i].1,
        }));
    }
    if n > 0 {
        let before = outcomes.take(n - 1);
        assert(runs[n - 1] == (tool_calls(windows)[n - 1], text));
        assert forall|i: int| 0 <= i < n - 1 implies !(#[trigger] outcomes[i]).good() by {
            assert(before[i] == outcomes[i]);
        }
    }
}

/// Where it is settled how each tool goes, the tools are run up to the first that takes the
/// text, or all of them where none does; and that is how copying ends.
pub proof fn copying_ends_for_any_tools(
    windows: bool,
    text: Seq<char>,
    goes: Seq<Attempt>,
    n: nat,
)
    requires
        goes.len() == tool_calls(windows).len(),
        1 <= n <= goes.len(),
        forall|i: int| 0 <= i < n - 1 ==> !(#[trigger] goes[i]).good(),
        goes[n - 1].good() || n == goes.len(),
    ensures
        is_copying(
            windows,
            text,
            Seq::new(n, |i: int| (tool_calls(windows)[i], text)),
            goes.take(n as int),
            goes[n - 1].good(),
        ),
{
    let runs = Seq::new(n, |i: int| (tool_calls(windows)[i], text));
    let outcomes = goes.take(n as int);
    assert forall|i: int| 0 <= i < runs.len() implies next_step(windows, text, outcomes.take(i)) == (
    CopyStep::Try { call: (#[trigger] runs[i]).0, input: runs[i].1 }) by {
        let so_far = outcomes.take(i);
        assert forall|j: int| 0 <= j < so_far.len() implies !(#[trigger] so_far[j]).good() by {
            assert(so_far[j] == goes[j]);
        }
    }
    if goes[n - 1].good() {
        assert(outcomes[n - 1].good());
    } else {
        assert forall|j: int| 0 <= j < outcomes.len() implies !(#[trigger] outcomes[j]).good() by {
            assert(outcomes[j] == goes[j]);
        }
    }
}

/// What is done next depends on nothing but how the attempts so far went. After one that
/// started a tool and did not fail to write to it, nothing more is done; else the next tool
/// of the platform is to be started with exactly the text as its input; and once all have
/// failed, the text counts as not copied.
pub proof fn next_tool_gets_the_whole_text(
    text: &str,
    outcomes: &[Attempt],
    windows: bool,
    r: CopyAction,
)
    requires
        call_ensures(copy_to_clipboard, (text, outcomes, windows), r),
    ensures
        ({
            let copied = exists|i: int|
                0 <= i < outcomes@.len() && ((#[trigger] outcomes@[i]) is Written
                    || outcomes@[i] is NoInput);
            let tried = outcomes@.len();
            &&& copied ==> r == CopyAction::Done(true)
            &&& !copied && (tried >= 3 || windows && tried >= 1) ==> r == CopyAction::Done(false)
            &&& !copied && !windows && tried < 3 ==> (r matches CopyAction::Try { tool, input }
                && input@ == text@ && tool.command@ == (if tried == 0 {
                "wl-copy"@
            } else if tried == 1 {
                "xclip"@
            } else {
                "xsel"@
            }) && tool.args@.len() == (if tried == 0 {
                0int
            } else {
                2
            }) && (tried == 1 ==> tool.args@[0]@ == "-selection"@ && tool.args@[1]@
                == "clipboard"@) && (tried == 2 ==> tool.args@[0]@ == "--clipboard"@
                && tool.args@[1]@ == "--input"@))
            &&& !copied && windows && tried == 0 ==> (r matches CopyAction::Try { tool, input }
                && input@ == text@ && tool.command@ == "powershell"@ && tool.args@.len() == 3
                && tool.args@[2]@ == WINDOWS_SCRIPT@)
        }),
{
    let tried = outcomes@.len();
    assert(any_good(outcomes@) == (exists|i: int|
        0 <= i < outcomes@.len() && ((#[trigger] outcomes@[i]) is Written
            || outcomes@[i] is NoInput)));
    if let CopyAction::Try { tool, .. } = r {
        let views = slice_views(tool.args@);
        assert(views.len() == tool.args@.len());
        assert(forall|i: int| 0 <= i < views.len() ==> #[trigger] views[i] == tool.args@[i]@);
        if tried == 1 {
            assert(views[0] == "-selection"@ && views[1] == "clipboard"@);
        }
        if tried == 2 {
            assert(views[0] == "--clipboard"@ && views[1] == "--input"@);
        }
        if windows {
            assert(views[2] == WINDOWS_SCRIPT@);
        }
    }
}

} // verus!
