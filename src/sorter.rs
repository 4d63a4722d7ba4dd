//! The sorting run as a state machine.
//!
//! A [`Sorter`] decides; its caller acts. Each call of [`Sorter::step`] takes
//! the outcome of the request handed out before, and returns the notes to
//! report and the next request: change into the directory, create a group's
//! folder, look whether a file is there, copy it, remove the source file, or
//! finish with the run's result. In a dry run the machine hands out
//! [`Request::Proceed`] where a real run would create, copy or remove, and
//! treats every such step as a success; it still asks whether each file is
//! there, which changes nothing on disk.
use vstd::prelude::*;
use crate::plan::{
    Entries, Group, Item, before, entries_valid, is_valid, item_text, items_of,
    lemma_before_all, lemma_before_monotone, lemma_before_step, total_files, total_of,
};
use crate::notes::{
    Note, NoteView, Severity, cat2, cat3, cat4, cat5, changed_text, completed_text,
    copy_error_text, created_text, emit, error_text, expected_text, missing_text,
    moved_text, moving_text, processed_text, processing_text, remove_error_text,
    removed_text, removing_text, start_text, target_path, views,
};

verus! {

/// Which request the machine waits on.
#[derive(Clone, Copy, PartialEq, Eq, Debug, Structural)]
pub enum Phase {
    Start,
    AwaitDir,
    AwaitCreate,
    AwaitExists,
    AwaitCopy,
    AwaitRemove,
    Done,
}

/// What came of the last request.
#[derive(Clone, Debug, PartialEq, Eq)]
pub enum Outcome {
    Completed,
    Failed(String),
    Exists(bool),
}

/// What the caller is asked to do next.
#[derive(Debug, PartialEq, Eq)]
pub enum Request {
    /// Make the run's directory the working directory.
    ChangeDir(String),
    /// Create a folder (relative to the working directory).
    CreateDir(String),
    /// Look whether a file exists.
    CheckExists(String),
    /// Copy a file (from, to).
    Copy(String, String),
    /// Remove a file.
    Remove(String),
    /// Nothing to do (a dry run's stand-in for a change on disk).
    Proceed,
    /// The run is over, with this result.
    Finish(Result<(), String>),
}

pub enum RequestView {
    ChangeDir(Seq<char>),
    CreateDir(Seq<char>),
    CheckExists(Seq<char>),
    Copy(Seq<char>, Seq<char>),
    Remove(Seq<char>),
    Proceed,
    Finish(Result<(), Seq<char>>),
}

impl View for Request {
    type V = RequestView;

    open spec fn view(&self) -> RequestView {
        match self {
            Request::ChangeDir(d) => RequestView::ChangeDir(d@),
            Request::CreateDir(d) => RequestView::CreateDir(d@),
            Request::CheckExists(f) => RequestView::CheckExists(f@),
            Request::Copy(a, b) => RequestView::Copy(a@, b@),
            Request::Remove(f) => RequestView::Remove(f@),
            Request::Proceed => RequestView::Proceed,
            Request::Finish(Ok(())) => RequestView::Finish(Ok(())),
            Request::Finish(Err(e)) => RequestView::Finish(Err(e@)),
        }
    }
}

/// The notes of one step, and the request that follows them.
pub struct Step {
    pub notes: Vec<Note>,
    pub request: Request,
}

/// Where a run stands: the phase, the group and file it is at, and how many
/// progress notes it has given.
pub struct Cursor {
    pub phase: Phase,
    pub group: nat,
    pub file: nat,
    pub done: nat,
}

pub open spec fn start_cursor() -> Cursor {
    Cursor { phase: Phase::Start, group: 0, file: 0, done: 0 }
}

pub open spec fn group_name(plan: Seq<Group>, g: int) -> Seq<char> {
    plan[g].name@
}

pub open spec fn file_count(plan: Seq<Group>, g: int) -> nat {
    items_of(plan[g].entries).len()
}

pub open spec fn file_name(plan: Seq<Group>, g: int, f: int) -> Seq<char> {
    item_text(items_of(plan[g].entries)[f])
}

/// The machine moves on to group `g`.
pub open spec fn enter_group(plan: Seq<Group>, dry: bool, g: nat, done: nat) -> (Cursor, Seq<NoteView>, RequestView) {
    if g < plan.len() {
        let name = group_name(plan, g as int);
        if is_valid(plan[g as int].entries) {
            (
                Cursor { phase: Phase::AwaitCreate, group: g, file: 0, done },
                seq![NoteView::Log(Severity::Info, processing_text(name))],
                if dry { RequestView::Proceed } else { RequestView::CreateDir(name) },
            )
        } else {
            (
                Cursor { phase: Phase::Done, group: g, file: 0, done },
                seq![
                    NoteView::Log(Severity::Info, processing_text(name)),
                    NoteView::Log(Severity::Error, expected_text()),
                ],
                RequestView::Finish(Err(expected_text())),
            )
        }
    } else {
        (
            Cursor { phase: Phase::Done, group: g, file: 0, done },
            seq![NoteView::Log(Severity::Success, completed_text())],
            RequestView::Finish(Ok(())),
        )
    }
}

/// The machine moves on to file `f` of group `g`, or past the group's end.
pub open spec fn enter_file(plan: Seq<Group>, dry: bool, total: nat, g: nat, f: nat, done: nat) -> (Cursor, Seq<NoteView>, RequestView) {
    let name = group_name(plan, g as int);
    if f < file_count(plan, g as int) {
        let file = file_name(plan, g as int, f as int);
        (
            Cursor { phase: Phase::AwaitExists, group: g, file: f, done: done + 1 },
            seq![
                NoteView::Progress(done + 1, total),
                NoteView::Log(Severity::Info, moving_text(file, name)),
            ],
            RequestView::CheckExists(file),
        )
    } else {
        let (c, ms, r) = enter_group(plan, dry, g + 1, done);
        (c, seq![NoteView::Log(Severity::Success, processed_text(name))] + ms, r)
    }
}

/// One step of a run: from where it stands and the outcome of the last
/// request, where it goes, what it reports, and what it asks next.
pub open spec fn next(
    plan: Seq<Group>,
    dir: Seq<char>,
    dry: bool,
    total: nat,
    c: Cursor,
    o: Outcome,
) -> (Cursor, Seq<NoteView>, RequestView) {
    let g = c.group;
    let f = c.file;
    let name = group_name(plan, g as int);
    let file = file_name(plan, g as int, f as int);
    match c.phase {
        Phase::Start => (
            Cursor { phase: Phase::AwaitDir, group: 0, file: 0, done: 0 },
            seq![NoteView::Log(Severity::Info, start_text())],
            RequestView::ChangeDir(dir),
        ),
        Phase::AwaitDir => {
            let m = match o {
                Outcome::Failed(e) => NoteView::Log(Severity::Error, error_text(e@)),
                _ => NoteView::Log(Severity::Success, changed_text(dir)),
            };
            let (c2, ms, r) = enter_group(plan, dry, 0, c.done);
            (c2, seq![m] + ms, r)
        },
        Phase::AwaitCreate => {
            let m = match o {
                Outcome::Failed(e) if !dry => NoteView::Log(Severity::Error, error_text(e@)),
                _ => NoteView::Log(Severity::Success, created_text(name)),
            };
            let (c2, ms, r) = enter_file(plan, dry, total, g, 0, c.done);
            (c2, seq![m] + ms, r)
        },
        Phase::AwaitExists => {
            if o == Outcome::Exists(true) {
                (
                    Cursor { phase: Phase::AwaitCopy, ..c },
                    seq![],
                    if dry { RequestView::Proceed } else { RequestView::Copy(file, target_path(name, file)) },
                )
            } else {
                let (c2, ms, r) = enter_file(plan, dry, total, g, f + 1, c.done);
                (c2, seq![NoteView::Log(Severity::Error, missing_text(file))] + ms, r)
            }
        },
        Phase::AwaitCopy => match o {
            Outcome::Failed(e) if !dry => {
                let (c2, ms, r) = enter_file(plan, dry, total, g, f + 1, c.done);
                (c2, seq![NoteView::Log(Severity::Error, copy_error_text(e@))] + ms, r)
            },
            _ => (
                Cursor { phase: Phase::AwaitRemove, ..c },
                seq![NoteView::Log(Severity::Success, moved_text(file, name))],
                if dry { RequestView::Proceed } else { RequestView::Remove(file) },
            ),
        },
        Phase::AwaitRemove => {
            let m = match o {
                _ if dry => NoteView::Log(Severity::Success, removing_text(file)),
                Outcome::Failed(e) => NoteView::Log(Severity::Error, remove_error_text(e@)),
                _ => NoteView::Log(Severity::Success, removed_text(file)),
            };
            let (c2, ms, r) = enter_file(plan, dry, total, g, f + 1, c.done);
            (c2, seq![m] + ms, r)
        },
        Phase::Done => (c, seq![], RequestView::Finish(Ok(()))),
    }
}

/// What holds wherever a run stands.
pub open spec fn inv(plan: Seq<Group>, total: nat, c: Cursor) -> bool {
    &&& total == total_of(plan)
    &&& c.group <= plan.len()
    &&& forall|j: int| 0 <= j < c.group ==> is_valid(#[trigger] plan[j].entries)
    &&& match c.phase {
        Phase::Start | Phase::AwaitDir => c.group == 0 && c.file == 0 && c.done == 0,
        Phase::AwaitCreate => {
            &&& c.group < plan.len()
            &&& is_valid(plan[c.group as int].entries)
            &&& c.file == 0
            &&& c.done == before(plan, c.group as int)
        },
        Phase::AwaitExists | Phase::AwaitCopy | Phase::AwaitRemove => {
            &&& c.group < plan.len()
            &&& is_valid(plan[c.group as int].entries)
            &&& c.file < file_count(plan, c.group as int)
            &&& c.done == before(plan, c.group as int) + c.file + 1
        },
        Phase::Done => {
            &&& c.file == 0
            &&& c.done == before(plan, c.group as int)
            &&& c.group < plan.len() ==> !is_valid(plan[c.group as int].entries)
        },
    }
}

/// The decisions of one sorting run over a plan and a directory.
pub struct Sorter {
    plan: Vec<Group>,
    dir: String,
    dry: bool,
    total: usize,
    phase: Phase,
    group: usize,
    file: usize,
    done: usize,
}

impl Sorter {
    pub closed spec fn plan(&self) -> Seq<Group> {
        self.plan@
    }

    pub closed spec fn dir(&self) -> Seq<char> {
        self.dir@
    }

    pub closed spec fn dry(&self) -> bool {
        self.dry
    }

    pub closed spec fn total(&self) -> nat {
        self.total as nat
    }

    pub closed spec fn cursor(&self) -> Cursor {
        Cursor {
            phase: self.phase,
            group: self.group as nat,
            file: self.file as nat,
            done: self.done as nat,
        }
    }

    pub open spec fn wf(&self) -> bool {
        inv(self.plan(), self.total(), self.cursor())
    }

    /// Whether two machines run the same plan in the same directory and mode.
    pub open spec fn same_run(&self, other: Sorter) -> bool {
        &&& self.plan() == other.plan()
        &&& self.dir() == other.dir()
        &&& self.dry() == other.dry()
        &&& self.total() == other.total()
    }

    /// A machine at the start of a run; `None` where the number of files the
    /// plan lists does not fit in a `usize`.
    pub fn new(plan: Vec<Group>, dir: String, dry: bool) -> (r: Option<Sorter>)
        ensures
            r is Some <==> total_of(plan@) <= usize::MAX,
            r matches Some(s) ==> {
                &&& s.wf()
                &&& s.plan() == plan@
                &&& s.dir() == dir@
                &&& s.dry() == dry
                &&& s.total() == total_of(plan@)
                &&& s.cursor() == start_cursor()
            },
    {
        match total_files(&plan) {
            Some(total) => Some(Sorter { plan, dir, dry, total, phase: Phase::Start, group: 0, file: 0, done: 0 }),
            None => None,
        }
    }

    /// Whether the run is over.
    pub fn is_finished(&self) -> (r: bool)
        ensures
            r == (self.cursor().phase == Phase::Done),
    {
        self.phase == Phase::Done
    }

    fn enter_group(&mut self, g: usize, notes: &mut Vec<Note>) -> (r: Request)
        requires
            g <= old(self).plan@.len(),
            old(self).total == total_of(old(self).plan@),
            forall|j: int| 0 <= j < g ==> is_valid(#[trigger] old(self).plan@[j].entries),
            old(self).done == before(old(self).plan@, g as int),
        ensures
            final(self).same_run(*old(self)),
            inv(final(self).plan(), final(self).total(), final(self).cursor()),
            ({
                let (c, ms, a) = enter_group(old(self).plan(), old(self).dry(), g as nat, old(self).done as nat);
                &&& final(self).cursor() == c
                &&& views(final(notes)@) == views(old(notes)@) + ms
                &&& r@ == a
            }),
    {
        let ghost ms = enter_group(self.plan@, self.dry, g as nat, self.done as nat).1;
        let ghost before_notes = views(notes@);
        if g < self.plan.len() {
            let name = self.plan[g].name.clone();
            emit(notes, Note::Log(Severity::Info, cat2("Processing group: ", name.as_str())));
            if entries_valid(&self.plan[g].entries) {
                self.phase = Phase::AwaitCreate;
                self.group = g;
                self.file = 0;
                assert(views(notes@) =~= before_notes + ms);
                if self.dry {
                    Request::Proceed
                } else {
                    Request::CreateDir(name)
                }
            } else {
                emit(notes, Note::Log(Severity::Error, String::from_str("Expected array of strings.")));
                self.phase = Phase::Done;
                self.group = g;
                self.file = 0;
                assert(views(notes@) =~= before_notes + ms);
                Request::Finish(Err(String::from_str("Expected array of strings.")))
            }
        } else {
            emit(notes, Note::Log(Severity::Success, String::from_str("File sorting operation completed!")));
            self.phase = Phase::Done;
            self.group = g;
            self.file = 0;
            assert(views(notes@) =~= before_notes + ms);
            Request::Finish(Ok(()))
        }
    }

    fn enter_file(&mut self, g: usize, f: usize, notes: &mut Vec<Note>) -> (r: Request)
        requires
            g < old(self).plan@.len(),
            is_valid(old(self).plan@[g as int].entries),
            f <= file_count(old(self).plan@, g as int),
            old(self).total == total_of(old(self).plan@),
            forall|j: int| 0 <= j < g ==> is_valid(#[trigger] old(self).plan@[j].entries),
            old(self).done == before(old(self).plan@, g as int) + f,
        ensures
            final(self).same_run(*old(self)),
            inv(final(self).plan(), final(self).total(), final(self).cursor()),
            ({
                let (c, ms, a) = enter_file(old(self).plan(), old(self).dry(), old(self).total(), g as nat, f as nat, old(self).done as nat);
                &&& final(self).cursor() == c
                &&& views(final(notes)@) == views(old(notes)@) + ms
                &&& r@ == a
            }),
    {
        let ghost before_notes = views(notes@);
        let ghost plan = self.plan@;
        let name = self.plan[g].name.clone();
        let count: usize = match &self.plan[g].entries {
            Entries::List(v) => v.len(),
            Entries::Other => 0,
        };
        proof {
            lemma_before_step(plan, g as int);
            lemma_before_monotone(plan, g as int + 1, plan.len() as int);
            lemma_before_all(plan);
        }
        if f < count {
            let file = self.file_at(g, f);
            self.done = self.done + 1;
            emit(notes, Note::Progress { value: self.done, max: self.total });
            emit(notes, Note::Log(Severity::Info, cat4("Moving ", file.as_str(), " to /", name.as_str())));
            self.phase = Phase::AwaitExists;
            self.group = g;
            self.file = f;
            assert(views(notes@) =~= before_notes + enter_file(plan, self.dry, self.total as nat, g as nat, f as nat, (self.done - 1) as nat).1);
            Request::CheckExists(file)
        } else {
            emit(notes, Note::Log(Severity::Success, cat2("Processed group: ", name.as_str())));
            let n_groups = self.plan.len();
            assert(g < n_groups);
            proof {
                assert forall|j: int| 0 <= j < g + 1 implies is_valid(#[trigger] plan[j].entries) by {
                    if j < g {
                        assert(is_valid(plan[j].entries));
                    }
                }
            }
            let r = self.enter_group(g + 1, notes);
            assert(views(notes@) =~= before_notes + enter_file(plan, self.dry, self.total as nat, g as nat, f as nat, self.done as nat).1);
            r
        }
    }

    /// Takes the outcome of the last request; returns what to report and
    /// what to do next.
    pub fn step(&mut self, outcome: Outcome) -> (r: Step)
        requires
            old(self).wf(),
            old(self).cursor().phase != Phase::Done,
        ensures
            final(self).wf(),
            final(self).same_run(*old(self)),
            (final(self).cursor(), views(r.notes@), r.request@) == next(
                old(self).plan(),
                old(self).dir(),
                old(self).dry(),
                old(self).total(),
                old(self).cursor(),
                outcome,
            ),
    {
        let ghost c0 = self.cursor();
        let ghost plan = self.plan@;
        let mut notes: Vec<Note> = Vec::new();
        let g = self.group;
        let f = self.file;
        let request = match self.phase {
            Phase::Start => {
                emit(&mut notes, Note::Log(Severity::Info, String::from_str("Starting file sorting operation...")));
                self.phase = Phase::AwaitDir;
                Request::ChangeDir(self.dir.clone())
            },
            Phase::AwaitDir => {
                let m = match &outcome {
                    Outcome::Failed(e) => Note::Log(Severity::Error, cat2("Error: ", e.as_str())),
                    _ => Note::Log(Severity::Success, cat2("Changed directory to ", self.dir.as_str())),
                };
                emit(&mut notes, m);
                self.enter_group(0, &mut notes)
            },
            Phase::AwaitCreate => {
                let name = self.plan[g].name.clone();
                let m = match &outcome {
                    Outcome::Failed(e) if !self.dry => Note::Log(Severity::Error, cat2("Error: ", e.as_str())),
                    _ => Note::Log(Severity::Success, cat3("Created directory: /", name.as_str(), "/")),
                };
                emit(&mut notes, m);
                self.enter_file(g, 0, &mut notes)
            },
            Phase::AwaitExists => {
                let file = self.file_at(g, f);
                let present = match &outcome {
                    Outcome::Exists(b) => *b,
                    _ => false,
                };
                if present {
                    self.phase = Phase::AwaitCopy;
                    if self.dry {
                        Request::Proceed
                    } else {
                        let name = self.plan[g].name.clone();
                        let to = cat3(name.as_str(), "/", file.as_str());
                        Request::Copy(file, to)
                    }
                } else {
                    emit(&mut notes, Note::Log(Severity::Error, cat2("File does not exist: ", file.as_str())));
                    self.enter_file(g, f + 1, &mut notes)
                }
            },
            Phase::AwaitCopy => {
                let file = self.file_at(g, f);
                match &outcome {
                    Outcome::Failed(e) if !self.dry => {
                        emit(&mut notes, Note::Log(Severity::Error, cat2("Error copying file: ", e.as_str())));
                        self.enter_file(g, f + 1, &mut notes)
                    },
                    _ => {
                        let name = self.plan[g].name.clone();
                        emit(&mut notes, Note::Log(Severity::Success, cat5("Moved: ", file.as_str(), " → /", name.as_str(), "/")));
                        self.phase = Phase::AwaitRemove;
                        if self.dry {
                            Request::Proceed
                        } else {
                            Request::Remove(file)
                        }
                    },
                }
            },
            Phase::AwaitRemove => {
                let file = self.file_at(g, f);
                let m = if self.dry {
                    Note::Log(Severity::Success, cat2("Removing: ", file.as_str()))
                } else {
                    match &outcome {
                        Outcome::Failed(e) => Note::Log(Severity::Error, cat2("Error removing file: ", e.as_str())),
                        _ => Note::Log(Severity::Success, cat2("Removed: ", file.as_str())),
                    }
                };
                emit(&mut notes, m);
                self.enter_file(g, f + 1, &mut notes)
            },
            Phase::Done => Request::Finish(Ok(())),
        };
        proof {
            let n = next(plan, self.dir@, self.dry, self.total as nat, c0, outcome);
            assert(views(notes@) =~= n.1);
        }
        Step { notes, request }
    }

    /// The name of file `f` of group `g`.
    fn file_at(&self, g: usize, f: usize) -> (r: String)
        requires
            g < self.plan@.len(),
            f < file_count(self.plan@, g as int),
        ensures
            r@ == file_name(self.plan@, g as int, f as int),
    {
        match &self.plan[g].entries {
            Entries::List(v) => text_of(&v[f]),
            Entries::Other => String::new(),
        }
    }
}

/// The text of one element of a group's list.
fn text_of(it: &Item) -> (r: String)
    ensures
        r@ == item_text(*it),
{
    match it {
        Item::Text(s) => s.clone(),
        Item::Other => String::new(),
    }
}

} // verus!
