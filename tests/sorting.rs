use std::collections::BTreeSet;

use file_sorter::notes::{log_line, Note, Severity};
use file_sorter::plan::{entries_valid, total_files, Entries, Group, Item};
use file_sorter::sorter::{Outcome, Request, Sorter};

/// A directory held in memory: the files and folders it contains.
struct Disk {
    files: BTreeSet<String>,
    dirs: BTreeSet<String>,
    fail_copy: BTreeSet<String>,
    fail_remove: BTreeSet<String>,
    fail_chdir: bool,
}

impl Disk {
    fn with(files: &[&str]) -> Disk {
        Disk {
            files: files.iter().map(|f| f.to_string()).collect(),
            dirs: BTreeSet::new(),
            fail_copy: BTreeSet::new(),
            fail_remove: BTreeSet::new(),
            fail_chdir: false,
        }
    }

    fn perform(&mut self, r: &Request) -> Outcome {
        match r {
            Request::ChangeDir(_) if self.fail_chdir => {
                Outcome::Failed("No such file or directory (os error 2)".to_string())
            }
            Request::ChangeDir(_) | Request::Proceed | Request::Finish(_) => Outcome::Completed,
            Request::CreateDir(d) => {
                if self.dirs.insert(d.clone()) {
                    Outcome::Completed
                } else {
                    Outcome::Failed("File exists (os error 17)".to_string())
                }
            }
            Request::CheckExists(f) => Outcome::Exists(self.files.contains(f)),
            Request::Copy(from, to) => {
                let folder = to.rsplit_once('/').map(|p| p.0.to_string()).unwrap_or_default();
                if self.fail_copy.contains(from) || !self.dirs.contains(&folder) || !self.files.contains(from) {
                    Outcome::Failed("copy refused".to_string())
                } else {
                    self.files.insert(to.clone());
                    Outcome::Completed
                }
            }
            Request::Remove(f) => {
                if self.fail_remove.contains(f) {
                    Outcome::Failed("permission denied".to_string())
                } else {
                    self.files.remove(f);
                    Outcome::Completed
                }
            }
        }
    }
}

struct Trace {
    notes: Vec<Note>,
    requests: Vec<Request>,
    result: Result<(), String>,
}

fn run(plan: Vec<Group>, disk: &mut Disk, dry: bool) -> Trace {
    let mut sorter = Sorter::new(plan, "/work".to_string(), dry).unwrap();
    let mut notes = Vec::new();
    let mut requests = Vec::new();
    let mut outcome = Outcome::Completed;
    loop {
        let step = sorter.step(outcome);
        notes.extend(step.notes);
        if let Request::Finish(result) = step.request {
            assert!(sorter.is_finished());
            return Trace { notes, requests, result };
        }
        outcome = disk.perform(&step.request);
        requests.push(step.request);
    }
}

fn list(name: &str, files: &[&str]) -> Group {
    Group {
        name: name.to_string(),
        entries: Entries::List(files.iter().map(|f| Item::Text(f.to_string())).collect()),
    }
}

fn malformed(name: &str) -> Group {
    Group { name: name.to_string(), entries: Entries::Other }
}

fn progress(t: &Trace) -> Vec<(usize, usize)> {
    t.notes
        .iter()
        .filter_map(|n| match n {
            Note::Progress { value, max } => Some((*value, *max)),
            _ => None,
        })
        .collect()
}

fn logs(t: &Trace) -> Vec<(Severity, String)> {
    t.notes
        .iter()
        .filter_map(|n| match n {
            Note::Log(s, m) => Some((*s, m.clone())),
            _ => None,
        })
        .collect()
}

fn shape(t: &Trace) -> Vec<String> {
    t.notes
        .iter()
        .map(|n| match n {
            Note::Log(s, _) => format!("{:?}", s),
            Note::Progress { value, max } => format!("{}/{}", value, max),
        })
        .collect()
}

fn example_plan() -> Vec<Group> {
    vec![list("images", &["a.png", "missing.png"]), list("docs", &["b.txt"])]
}

#[test]
fn example_run_moves_present_files() {
    let mut disk = Disk::with(&["a.png", "b.txt"]);
    let t = run(example_plan(), &mut disk, false);
    assert_eq!(t.result, Ok(()));
    assert_eq!(progress(&t), vec![(1, 3), (2, 3), (3, 3)]);
    assert!(disk.files.contains("images/a.png"));
    assert!(!disk.files.contains("a.png"));
    assert!(disk.files.contains("docs/b.txt"));
    assert!(!disk.files.contains("b.txt"));
    assert!(!disk.files.iter().any(|f| f.contains("missing.png")));
    let errors: Vec<String> = logs(&t).into_iter().filter(|l| l.0 == Severity::Error).map(|l| l.1).collect();
    assert_eq!(errors, vec!["File does not exist: missing.png".to_string()]);
}

#[test]
fn example_run_logs_in_order() {
    let mut disk = Disk::with(&["a.png", "b.txt"]);
    let t = run(example_plan(), &mut disk, false);
    let expected: Vec<(Severity, &str)> = vec![
        (Severity::Info, "Starting file sorting operation..."),
        (Severity::Success, "Changed directory to /work"),
        (Severity::Info, "Processing group: images"),
        (Severity::Success, "Created directory: /images/"),
        (Severity::Info, "Moving a.png to /images"),
        (Severity::Success, "Moved: a.png → /images/"),
        (Severity::Success, "Removed: a.png"),
        (Severity::Info, "Moving missing.png to /images"),
        (Severity::Error, "File does not exist: missing.png"),
        (Severity::Success, "Processed group: images"),
        (Severity::Info, "Processing group: docs"),
        (Severity::Success, "Created directory: /docs/"),
        (Severity::Info, "Moving b.txt to /docs"),
        (Severity::Success, "Moved: b.txt → /docs/"),
        (Severity::Success, "Removed: b.txt"),
        (Severity::Success, "Processed group: docs"),
        (Severity::Success, "File sorting operation completed!"),
    ];
    let got = logs(&t);
    assert_eq!(got.len(), expected.len());
    for (g, e) in got.iter().zip(expected.iter()) {
        assert_eq!(g.0, e.0);
        assert_eq!(g.1, e.1);
    }
    assert_eq!(
        &t.requests[..4],
        &[
            Request::ChangeDir("/work".to_string()),
            Request::CreateDir("images".to_string()),
            Request::CheckExists("a.png".to_string()),
            Request::Copy("a.png".to_string(), "images/a.png".to_string()),
        ][..]
    );
}

#[test]
fn valid_plan_succeeds_despite_file_failures() {
    let mut disk = Disk::with(&["a", "b", "c"]);
    disk.fail_copy.insert("b".to_string());
    disk.fail_remove.insert("c".to_string());
    disk.dirs.insert("g".to_string());
    let t = run(vec![list("g", &["a", "b", "c", "d"])], &mut disk, false);
    assert_eq!(t.result, Ok(()));
    let l = logs(&t);
    assert!(l.contains(&(Severity::Error, "Error: File exists (os error 17)".to_string())));
    assert!(l.contains(&(Severity::Error, "Error copying file: copy refused".to_string())));
    assert!(l.contains(&(Severity::Error, "Error removing file: permission denied".to_string())));
    assert!(l.contains(&(Severity::Error, "File does not exist: d".to_string())));
    // a failed removal leaves the source file beside its copy
    assert!(disk.files.contains("c") && disk.files.contains("g/c"));
    assert!(disk.files.contains("b") && !disk.files.contains("g/b"));
    assert!(!disk.files.contains("a") && disk.files.contains("g/a"));
}

#[test]
fn malformed_group_fails_run() {
    let mut disk = Disk::with(&["a", "b"]);
    let plan = vec![list("first", &["a"]), malformed("bad"), list("later", &["b"])];
    let t = run(plan, &mut disk, false);
    assert_eq!(t.result, Err("Expected array of strings.".to_string()));
    assert_eq!(progress(&t), vec![(1, 2)]);
    let l = logs(&t);
    assert_eq!(l.last().unwrap(), &(Severity::Error, "Expected array of strings.".to_string()));
    assert!(!l.iter().any(|x| x.1.contains("later")));
    assert!(disk.files.contains("b"));
}

#[test]
fn list_with_a_non_string_is_malformed() {
    let mut disk = Disk::with(&[]);
    let g = Group {
        name: "g".to_string(),
        entries: Entries::List(vec![Item::Text("x".to_string()), Item::Other]),
    };
    assert!(!entries_valid(&g.entries));
    let t = run(vec![g], &mut disk, false);
    assert_eq!(t.result, Err("Expected array of strings.".to_string()));
    assert!(progress(&t).is_empty());
}

#[test]
fn progress_counts_across_groups() {
    let mut disk = Disk::with(&["a", "b", "c", "d", "e"]);
    let plan = vec![list("x", &["a", "b"]), list("empty", &[]), list("y", &["c", "d", "e"])];
    assert_eq!(total_files(&plan), Some(5));
    let t = run(plan, &mut disk, false);
    assert_eq!(progress(&t), vec![(1, 5), (2, 5), (3, 5), (4, 5), (5, 5)]);
}

#[test]
fn missing_file_is_not_copied() {
    let mut disk = Disk::with(&[]);
    let t = run(vec![list("g", &["ghost"])], &mut disk, false);
    assert_eq!(t.result, Ok(()));
    assert!(!t.requests.iter().any(|r| matches!(r, Request::Copy(..) | Request::Remove(..))));
    let errors = logs(&t).into_iter().filter(|l| l.0 == Severity::Error).count();
    assert_eq!(errors, 1);
    assert_eq!(progress(&t), vec![(1, 1)]);
}

#[test]
fn dry_run_matches_real_shape_and_touches_nothing() {
    let plan = vec![list("images", &["a.png"]), list("docs", &["b.txt", "c.txt"])];
    let mut real_disk = Disk::with(&["a.png", "b.txt", "c.txt"]);
    let real = run(plan.clone(), &mut real_disk, false);
    let mut dry_disk = Disk::with(&["a.png", "b.txt", "c.txt"]);
    let before = dry_disk.files.clone();
    let dry = run(plan, &mut dry_disk, true);
    assert_eq!(shape(&real), shape(&dry));
    assert_eq!(real.result, dry.result);
    assert_eq!(dry_disk.files, before);
    assert!(dry_disk.dirs.is_empty());
    assert!(dry
        .requests
        .iter()
        .all(|r| matches!(r, Request::ChangeDir(_) | Request::CheckExists(_) | Request::Proceed)));
    assert!(logs(&dry).contains(&(Severity::Success, "Removing: a.png".to_string())));
}

#[test]
fn empty_plan_completes() {
    let mut disk = Disk::with(&[]);
    let t = run(vec![], &mut disk, false);
    assert_eq!(t.result, Ok(()));
    assert!(progress(&t).is_empty());
    assert_eq!(logs(&t).len(), 3);
}

#[test]
fn log_line_joins_fields() {
    assert_eq!(log_line("09:05:07", Severity::Warning, "careful"), "09:05:07,WARNING,careful");
    assert_eq!(log_line("23:59:59", Severity::Success, "a,b"), "23:59:59,SUCCESS,a,b");
    assert_eq!(Severity::Info.as_str(), "INFO");
    assert_eq!(Severity::Error.as_str(), "ERROR");
}

#[test]
fn failed_change_of_directory_is_not_fatal() {
    let mut disk = Disk::with(&["a"]);
    disk.fail_chdir = true;
    let t = run(vec![list("g", &["a"])], &mut disk, false);
    assert_eq!(t.result, Ok(()));
    let l = logs(&t);
    assert_eq!(l[1], (Severity::Error, "Error: No such file or directory (os error 2)".to_string()));
    assert!(disk.files.contains("g/a"));
}

#[test]
fn totals_count_every_list() {
    let odd = Group {
        name: "odd".to_string(),
        entries: Entries::List(vec![Item::Other, Item::Text("x".to_string())]),
    };
    let plan = vec![list("a", &["1", "2"]), malformed("b"), odd];
    assert_eq!(total_files(&plan), Some(4));
    assert!(entries_valid(&plan[0].entries));
    assert!(!entries_valid(&plan[1].entries));
    assert!(!entries_valid(&plan[2].entries));
    assert!(entries_valid(&Entries::List(vec![])));
}

#[test]
fn finished_run_reports_finished() {
    let mut sorter = Sorter::new(vec![], "d".to_string(), true).unwrap();
    assert!(!sorter.is_finished());
    let first = sorter.step(Outcome::Completed);
    assert_eq!(first.notes, vec![Note::Log(Severity::Info, "Starting file sorting operation...".to_string())]);
    assert_eq!(first.request, Request::ChangeDir("d".to_string()));
    let last = sorter.step(Outcome::Completed);
    assert_eq!(last.request, Request::Finish(Ok(())));
    assert!(sorter.is_finished());
}

#[test]
fn dry_run_reports_missing_file_like_real_run() {
    let plan = vec![list("images", &["a.png", "missing.png"]), list("docs", &["b.txt"])];
    let mut real_disk = Disk::with(&["a.png", "b.txt"]);
    let real = run(plan.clone(), &mut real_disk, false);
    let mut dry_disk = Disk::with(&["a.png", "b.txt"]);
    let before = dry_disk.files.clone();
    let dry = run(plan, &mut dry_disk, true);
    assert_eq!(shape(&real), shape(&dry));
    assert_eq!(progress(&dry), vec![(1, 3), (2, 3), (3, 3)]);
    let dry_errors: Vec<String> = logs(&dry).into_iter().filter(|l| l.0 == Severity::Error).map(|l| l.1).collect();
    assert_eq!(dry_errors, vec!["File does not exist: missing.png".to_string()]);
    assert!(!logs(&dry).iter().any(|l| l.1.contains("Moved: missing.png")));
    assert_eq!(dry_disk.files, before);
    assert!(dry_disk.dirs.is_empty());
    assert!(dry.requests.contains(&Request::CheckExists("missing.png".to_string())));
    assert!(!dry.requests.iter().any(|r| matches!(r, Request::CreateDir(_) | Request::Copy(..) | Request::Remove(_))));
}
