use vstd::prelude::*;
use vstd::utf8::{decode_utf8, valid_utf8};
use crate::text::{blank, from_utf8, is_blank};

verus! {

/// What `pars_libs::parse_line` makes of a line: the commands it holds, each
/// a program and its arguments, or `None` when the line does not split into
/// words (an unclosed quote, for one).
pub uninterp spec fn parsed_line(s: Seq<char>) -> Option<Seq<Seq<Seq<char>>>>;

/// No command is empty, nor any word of one.
pub open spec fn commands_well_formed(cmds: Seq<Seq<Seq<char>>>) -> bool {
    forall|i: int| 0 <= i < cmds.len() ==> {
        &&& #[trigger] cmds[i].len() > 0
        &&& forall|j: int| 0 <= j < cmds[i].len() ==> #[trigger] cmds[i][j].len() > 0
    }
}

/// Calls `pars_libs::parse_line`. Its result is `parsed_line` of the line; as
/// its source shows, it only ever keeps words that are not empty and commands
/// that hold a word. How `shlex` splits the words is not stated.
#[verifier::external_body]
pub(crate) fn parse_line(s: &str) -> (res: Option<Vec<Vec<String>>>)
    ensures
        res.deep_view() == parsed_line(s@),
        res matches Some(cmds) ==> commands_well_formed(cmds.deep_view()),
{
    pars_libs::parse_line(s)
}

/// What a reader does with one line of input.
pub enum InputStep {
    /// The line is blank: reading ends.
    Stop,
    /// The line does not parse: it is dropped.
    Skip,
    /// These commands go to the workers.
    Dispatch(Vec<Vec<String>>),
}

pub enum InputStepView {
    Stop,
    Skip,
    Dispatch(Seq<Seq<Seq<char>>>),
}

impl View for InputStep {
    type V = InputStepView;

    open spec fn view(&self) -> InputStepView {
        match self {
            InputStep::Stop => InputStepView::Stop,
            InputStep::Skip => InputStepView::Skip,
            InputStep::Dispatch(c) => InputStepView::Dispatch(c.deep_view()),
        }
    }
}

/// What a line that is not blank turns into, given what it parsed to.
pub open spec fn dispatch_of(parsed: Option<Seq<Seq<Seq<char>>>>) -> InputStepView {
    match parsed {
        Some(cmds) => InputStepView::Dispatch(cmds),
        None => InputStepView::Skip,
    }
}

/// What a reader does with a line that is not blank, from what it parsed to.
pub fn dispatch_parsed(parsed: Option<Vec<Vec<String>>>) -> (res: InputStep)
    ensures
        res@ == dispatch_of(parsed.deep_view()),
{
    match parsed {
        Some(cmds) => InputStep::Dispatch(cmds),
        None => InputStep::Skip,
    }
}

/// What the local reader does with one line of standard input: stop at a
/// blank line, else hand on the commands the line parses to.
pub fn reader_local(line: &str) -> (res: InputStep)
    ensures
        res@ == if is_blank(line@) { InputStepView::Stop } else { dispatch_of(parsed_line(line@)) },
{
    if blank(line) {
        InputStep::Stop
    } else {
        dispatch_parsed(parse_line(line))
    }
}

/// What the remote reader does with one line of standard input: `None`
/// (reading ends) at a blank line, else the line itself, to be forwarded.
pub fn reader_remote_mode(line: &str) -> (res: Option<String>)
    ensures
        is_blank(line@) ==> res is None,
        !is_blank(line@) ==> (res matches Some(s) && s@ == line@),
{
    if blank(line) {
        None
    } else {
        Some(line.to_owned())
    }
}

/// The commands held in a chunk of bytes received from a server: `None` when
/// the bytes are not UTF-8, else what the text parses to.
pub fn client_commands(bytes: &[u8]) -> (res: Option<Vec<Vec<String>>>)
    ensures
        res.deep_view() == if valid_utf8(bytes@) { parsed_line(decode_utf8(bytes@)) } else { None },
{
    match from_utf8(bytes) {
        Some(text) => parse_line(text),
        None => None,
    }
}

/// The text of a chunk of bytes received from a client, when it is UTF-8.
pub fn received_text(bytes: &[u8]) -> (res: Option<String>)
    ensures
        res is Some <==> valid_utf8(bytes@),
        res matches Some(s) ==> s@ == decode_utf8(bytes@),
{
    match from_utf8(bytes) {
        Some(text) => Some(text.to_owned()),
        None => None,
    }
}

/// Law: a line that is not blank and parses is handed on whole: the workers
/// get every command that it parses to, in order, nothing added or dropped;
/// a line that does not parse gives them nothing.
pub proof fn law_whole_line_dispatched(line: Seq<char>)
    requires
        !is_blank(line),
    ensures
        parsed_line(line) matches Some(cmds) ==> dispatch_of(parsed_line(line)) == InputStepView::Dispatch(cmds),
        parsed_line(line) is None ==> dispatch_of(parsed_line(line)) == InputStepView::Skip,
{
}

/// Law: whatever the parse gives, the step hands on all of it.
pub proof fn law_dispatch_keeps_every_command(cmds: Seq<Seq<Seq<char>>>)
    ensures
        dispatch_of(Some(cmds)) matches InputStepView::Dispatch(d) && d.len() == cmds.len()
            && forall|i: int| 0 <= i < cmds.len() ==> d[i] == cmds[i],
{
}

} // verus!
