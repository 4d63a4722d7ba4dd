//! What a run reports: log lines with a severity, and progress counts.
use vstd::prelude::*;
use vstd::string::*;

verus! {

/// How a log line is classified; it has no effect beyond display.
#[derive(Clone, Copy, PartialEq, Eq, Debug, Structural)]
pub enum Severity {
    Info,
    Success,
    Warning,
    Error,
}

/// The upper-case name of a severity, as it stands in a log line.
pub open spec fn severity_text(s: Severity) -> Seq<char> {
    match s {
        Severity::Info => "INFO"@,
        Severity::Success => "SUCCESS"@,
        Severity::Warning => "WARNING"@,
        Severity::Error => "ERROR"@,
    }
}

impl Severity {
    pub fn as_str(&self) -> (r: &'static str)
        ensures
            r@ == severity_text(*self),
    {
        match self {
            Severity::Info => "INFO",
            Severity::Success => "SUCCESS",
            Severity::Warning => "WARNING",
            Severity::Error => "ERROR",
        }
    }
}

/// The text of a log line: `time,SEVERITY,message`.
pub open spec fn line_text(time: Seq<char>, s: Severity, message: Seq<char>) -> Seq<char> {
    time + ","@ + severity_text(s) + ","@ + message
}

/// Joins a time of day, a severity and a message into one log line.
pub fn log_line(time: &str, severity: Severity, message: &str) -> (r: String)
    ensures
        r@ == line_text(time@, severity, message@),
{
    let mut s = String::from_str(time);
    s.append(",");
    s.append(severity.as_str());
    s.append(",");
    s.append(message);
    s
}

} // verus!

verus! {

/// A notification of a run: a log message, or a progress count
/// (`value` of `max`, counted from 1).
#[derive(Clone, Debug, PartialEq, Eq)]
pub enum Note {
    Log(Severity, String),
    Progress { value: usize, max: usize },
}

/// The mathematical value of a [`Note`].
pub enum NoteView {
    Log(Severity, Seq<char>),
    Progress(nat, nat),
}

impl View for Note {
    type V = NoteView;

    open spec fn view(&self) -> NoteView {
        match self {
            Note::Log(s, m) => NoteView::Log(*s, m@),
            Note::Progress { value, max } => NoteView::Progress(*value as nat, *max as nat),
        }
    }
}

pub open spec fn views(ns: Seq<Note>) -> Seq<NoteView> {
    ns.map_values(|n: Note| n@)
}

/// Appends one note.
pub fn emit(notes: &mut Vec<Note>, n: Note)
    ensures
        views(final(notes)@) == views(old(notes)@).push(n@),
{
    let ghost v = n@;
    notes.push(n);
    assert(views(notes@) =~= views(old(notes)@).push(v));
}

pub open spec fn start_text() -> Seq<char> {
    "Starting file sorting operation..."@
}

pub open spec fn changed_text(dir: Seq<char>) -> Seq<char> {
    "Changed directory to "@ + dir
}

pub open spec fn error_text(e: Seq<char>) -> Seq<char> {
    "Error: "@ + e
}

pub open spec fn processing_text(g: Seq<char>) -> Seq<char> {
    "Processing group: "@ + g
}

pub open spec fn expected_text() -> Seq<char> {
    "Expected array of strings."@
}

pub open spec fn created_text(g: Seq<char>) -> Seq<char> {
    "Created directory: /"@ + g + "/"@
}

pub open spec fn moving_text(f: Seq<char>, g: Seq<char>) -> Seq<char> {
    "Moving "@ + f + " to /"@ + g
}

pub open spec fn missing_text(f: Seq<char>) -> Seq<char> {
    "File does not exist: "@ + f
}

pub open spec fn copy_error_text(e: Seq<char>) -> Seq<char> {
    "Error copying file: "@ + e
}

pub open spec fn moved_text(f: Seq<char>, g: Seq<char>) -> Seq<char> {
    "Moved: "@ + f + " → /"@ + g + "/"@
}

pub open spec fn removed_text(f: Seq<char>) -> Seq<char> {
    "Removed: "@ + f
}

pub open spec fn removing_text(f: Seq<char>) -> Seq<char> {
    "Removing: "@ + f
}

pub open spec fn remove_error_text(e: Seq<char>) -> Seq<char> {
    "Error removing file: "@ + e
}

pub open spec fn processed_text(g: Seq<char>) -> Seq<char> {
    "Processed group: "@ + g
}

pub open spec fn completed_text() -> Seq<char> {
    "File sorting operation completed!"@
}

/// Where a file of a group is copied to: `group/file`.
pub open spec fn target_path(g: Seq<char>, f: Seq<char>) -> Seq<char> {
    g + "/"@ + f
}

pub fn cat2(a: &str, b: &str) -> (r: String)
    ensures
        r@ == a@ + b@,
{
    let mut s = String::from_str(a);
    s.append(b);
    s
}

pub fn cat3(a: &str, b: &str, c: &str) -> (r: String)
    ensures
        r@ == a@ + b@ + c@,
{
    let mut s = cat2(a, b);
    s.append(c);
    s
}

pub fn cat4(a: &str, b: &str, c: &str, d: &str) -> (r: String)
    ensures
        r@ == a@ + b@ + c@ + d@,
{
    let mut s = cat3(a, b, c);
    s.append(d);
    s
}

pub fn cat5(a: &str, b: &str, c: &str, d: &str, e: &str) -> (r: String)
    ensures
        r@ == a@ + b@ + c@ + d@ + e@,
{
    let mut s = cat3(a, b, c);
    s.append(d);
    s.append(e);
    s
}

} // verus!
