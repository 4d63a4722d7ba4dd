//! What holds of every run, stated over the step function [`next`].
use vstd::prelude::*;
use crate::plan::{
    Group, before, is_valid, lemma_before_all, lemma_before_monotone, lemma_before_step,
    total_of,
};
use crate::notes::{NoteView, Severity, expected_text, remove_error_text, removed_text, missing_text, moved_text};
use crate::sorter::{
    Cursor, Outcome, Phase, RequestView, enter_file, enter_group, file_count, file_name,
    group_name, inv, next, start_cursor,
};

verus! {

/// A run starts in a state that satisfies the invariant.
pub proof fn start_keeps_inv(plan: Seq<Group>)
    ensures
        inv(plan, total_of(plan), start_cursor()),
{
}

proof fn lemma_enter_group(plan: Seq<Group>, dry: bool, g: nat, done: nat)
    requires
        g <= plan.len(),
        forall|j: int| 0 <= j < g ==> is_valid(#[trigger] plan[j].entries),
        done == before(plan, g as int),
    ensures
        inv(plan, total_of(plan), enter_group(plan, dry, g, done).0),
{
}

proof fn lemma_enter_file(plan: Seq<Group>, dry: bool, g: nat, f: nat, done: nat)
    requires
        g < plan.len(),
        is_valid(plan[g as int].entries),
        f <= file_count(plan, g as int),
        forall|j: int| 0 <= j < g ==> is_valid(#[trigger] plan[j].entries),
        done == before(plan, g as int) + f,
    ensures
        inv(plan, total_of(plan), enter_file(plan, dry, total_of(plan), g, f, done).0),
        f < file_count(plan, g as int) ==> done + 1 <= total_of(plan),
{
    lemma_before_step(plan, g as int);
    lemma_before_monotone(plan, g as int + 1, plan.len() as int);
    lemma_before_all(plan);
    if f >= file_count(plan, g as int) {
        assert forall|j: int| 0 <= j < g + 1 implies is_valid(#[trigger] plan[j].entries) by {
            if j < g {
                assert(is_valid(plan[j].entries));
            }
        }
        lemma_enter_group(plan, dry, g + 1, done);
    }
}

/// Every step of a run keeps the invariant.
pub proof fn next_keeps_inv(plan: Seq<Group>, dir: Seq<char>, dry: bool, c: Cursor, o: Outcome)
    requires
        inv(plan, total_of(plan), c),
    ensures
        inv(plan, total_of(plan), next(plan, dir, dry, total_of(plan), c, o).0),
{
    match c.phase {
        Phase::AwaitDir => {
            lemma_enter_group(plan, dry, 0, c.done);
        },
        Phase::AwaitCreate => {
            lemma_enter_file(plan, dry, c.group, 0, c.done);
        },
        Phase::AwaitExists | Phase::AwaitCopy | Phase::AwaitRemove => {
            lemma_enter_file(plan, dry, c.group, c.file + 1, c.done);
        },
        _ => {},
    }
}

/// Progress counts up by one at a time and never passes the total: a step
/// gives at most one progress note, and that note carries one more than the
/// count of notes given before it, with the plan's total as its maximum.
pub proof fn progress_counts_up(plan: Seq<Group>, dir: Seq<char>, dry: bool, c: Cursor, o: Outcome)
    requires
        inv(plan, total_of(plan), c),
    ensures
        ({
            let (c2, ms, r) = next(plan, dir, dry, total_of(plan), c, o);
            &&& c2.done == c.done || c2.done == c.done + 1
            &&& c2.done <= total_of(plan)
            &&& forall|i: int| 0 <= i < ms.len() && ms[i] is Progress ==>
                    ms[i] == NoteView::Progress(c.done + 1, total_of(plan)) && c2.done == c.done + 1
            &&& forall|i: int, k: int| 0 <= i < ms.len() && 0 <= k < ms.len() && ms[i] is Progress && ms[k] is Progress ==> i == k
            &&& c2.done == c.done + 1 ==> exists|i: int| 0 <= i < ms.len() && ms[i] == NoteView::Progress(c.done + 1, total_of(plan))
        }),
{
    next_keeps_inv(plan, dir, dry, c, o);
    let c2 = next(plan, dir, dry, total_of(plan), c, o).0;
    lemma_before_monotone(plan, c2.group as int, plan.len() as int);
    lemma_before_all(plan);
    if c2.group < plan.len() {
        lemma_before_step(plan, c2.group as int);
        lemma_before_monotone(plan, c2.group as int + 1, plan.len() as int);
    }
    let ms = next(plan, dir, dry, total_of(plan), c, o).1;
    match c.phase {
        Phase::AwaitDir => {},
        Phase::AwaitCreate => {
            if 0 < file_count(plan, c.group as int) {
                assert(ms[1] == NoteView::Progress(c.done + 1, total_of(plan)));
            }
        },
        Phase::AwaitExists | Phase::AwaitCopy | Phase::AwaitRemove => {
            if c.file + 1 < file_count(plan, c.group as int) && c2.done == c.done + 1 {
                assert(ms[1] == NoteView::Progress(c.done + 1, total_of(plan)));
            }
        },
        _ => {},
    }
}

/// A plan whose every group is a list of strings never ends its run in
/// failure, whatever the outcomes on disk.
pub proof fn valid_plan_succeeds(plan: Seq<Group>, dir: Seq<char>, dry: bool, c: Cursor, o: Outcome)
    requires
        inv(plan, total_of(plan), c),
        forall|j: int| 0 <= j < plan.len() ==> is_valid(#[trigger] plan[j].entries),
    ensures
        !(next(plan, dir, dry, total_of(plan), c, o).2 is Finish)
            || next(plan, dir, dry, total_of(plan), c, o).2 == RequestView::Finish(Ok(())),
{
}

/// A run over a plan with a group that is not a list of strings never gets
/// past that group: it finishes, if at all, with the failure "Expected array
/// of strings.", and every progress note it gives counts a file of a group
/// before it.
pub proof fn malformed_group_stops_run(
    plan: Seq<Group>,
    dir: Seq<char>,
    dry: bool,
    c: Cursor,
    o: Outcome,
    k: int,
)
    requires
        inv(plan, total_of(plan), c),
        c.phase != Phase::Done,
        0 <= k < plan.len(),
        !is_valid(plan[k].entries),
    ensures
        ({
            let (c2, ms, r) = next(plan, dir, dry, total_of(plan), c, o);
            &&& c2.group <= k
            &&& r is Finish ==> r == RequestView::Finish(Err(expected_text()))
            &&& forall|i: int| 0 <= i < ms.len() && ms[i] is Progress ==>
                    (#[trigger] ms[i])->Progress_0 <= before(plan, k)
        }),
{
    next_keeps_inv(plan, dir, dry, c, o);
    progress_counts_up(plan, dir, dry, c, o);
    let (c2, ms, r) = next(plan, dir, dry, total_of(plan), c, o);
    if c2.group > k {
        assert(is_valid(plan[k].entries));
    }
    if c2.phase == Phase::Done {
        if c2.group < plan.len() {
            assert(c2.done == before(plan, c2.group as int));
            lemma_before_monotone(plan, c2.group as int, k);
        }
    } else if c2.phase != Phase::AwaitDir && c2.phase != Phase::Start {
        assert(c2.group != k);
        lemma_before_step(plan, c2.group as int);
        lemma_before_monotone(plan, c2.group as int + 1, k);
        assert(c2.done <= before(plan, k));
    }
    assert forall|i: int| 0 <= i < ms.len() && ms[i] is Progress implies
        (#[trigger] ms[i])->Progress_0 <= before(plan, k) by {
        assert(ms[i] == NoteView::Progress(c.done + 1, total_of(plan)));
    }
}

/// After a copy that succeeded, the next step always reports the removal of
/// the source file: a success where the removal went through, an error where
/// it failed.
pub proof fn copy_then_removal_reported(
    plan: Seq<Group>,
    dir: Seq<char>,
    c: Cursor,
    o: Outcome,
    o2: Outcome,
)
    requires
        inv(plan, total_of(plan), c),
        c.phase == Phase::AwaitCopy,
        !(o is Failed),
    ensures
        ({
            let (c2, ms, r) = next(plan, dir, false, total_of(plan), c, o);
            let file = file_name(plan, c.group as int, c.file as int);
            let ms2 = next(plan, dir, false, total_of(plan), c2, o2).1;
            &&& ms == seq![NoteView::Log(Severity::Success, moved_text(file, group_name(plan, c.group as int)))]
            &&& r == RequestView::Remove(file)
            &&& ms2.len() > 0
            &&& ms2[0] == match o2 {
                Outcome::Failed(e) => NoteView::Log(Severity::Error, remove_error_text(e@)),
                _ => NoteView::Log(Severity::Success, removed_text(file)),
            }
        }),
{
}

/// A file that is not on disk is neither copied nor removed: the step that
/// learns so reports exactly that error first and moves on, and the
/// progress note for the file was given before.
pub proof fn missing_file_skipped(plan: Seq<Group>, dir: Seq<char>, c: Cursor, o: Outcome)
    requires
        inv(plan, total_of(plan), c),
        c.phase == Phase::AwaitExists,
        o != Outcome::Exists(true),
    ensures
        ({
            let (c2, ms, r) = next(plan, dir, false, total_of(plan), c, o);
            let file = file_name(plan, c.group as int, c.file as int);
            &&& ms.len() > 0
            &&& ms[0] == NoteView::Log(Severity::Error, missing_text(file))
            &&& !(r is Copy) && !(r is Remove)
            &&& c.done == before(plan, c.group as int) + c.file + 1
            &&& c2.phase != Phase::AwaitCopy
        }),
{
}

/// The shape of a note: its severity, or the numbers of a progress note.
pub open spec fn same_shape(a: NoteView, b: NoteView) -> bool {
    match (a, b) {
        (NoteView::Log(s, _), NoteView::Log(t, _)) => s == t,
        (NoteView::Progress(v, m), NoteView::Progress(w, n)) => v == w && m == n,
        _ => false,
    }
}

/// The outcome does not report a failed change on disk (creating a folder,
/// copying or removing a file), the changes that a dry run only pretends.
pub open spec fn went_through(phase: Phase, o: Outcome) -> bool {
    !(o is Failed && (phase == Phase::AwaitCreate || phase == Phase::AwaitCopy || phase == Phase::AwaitRemove))
}

/// A dry run walks in lockstep with a real run in which every change on disk
/// goes through, whatever the files present: from the same state and the
/// same outcome, both reach the same state with notes of the same shape, one
/// for one; where the real run is asked to change the disk, the dry run is
/// asked for nothing, and otherwise both are asked the same.
pub proof fn dry_run_in_lockstep(plan: Seq<Group>, dir: Seq<char>, c: Cursor, o: Outcome)
    requires
        inv(plan, total_of(plan), c),
        went_through(c.phase, o),
    ensures
        ({
            let (c_real, ms_real, r_real) = next(plan, dir, false, total_of(plan), c, o);
            let (c_dry, ms_dry, r_dry) = next(plan, dir, true, total_of(plan), c, o);
            &&& c_real == c_dry
            &&& ms_real.len() == ms_dry.len()
            &&& forall|i: int| 0 <= i < ms_real.len() ==> same_shape(#[trigger] ms_real[i], ms_dry[i])
            &&& (r_real is CreateDir || r_real is Copy || r_real is Remove)
                    ==> r_dry == RequestView::Proceed
            &&& !(r_real is CreateDir || r_real is Copy || r_real is Remove)
                    ==> r_dry == r_real
        }),
{
}

/// A dry run never asks for a change on disk: it may only ask to change
/// into the directory and whether a file is there.
pub proof fn dry_run_touches_nothing(plan: Seq<Group>, dir: Seq<char>, c: Cursor, o: Outcome)
    ensures
        ({
            let r = next(plan, dir, true, total_of(plan), c, o).2;
            !(r is CreateDir || r is Copy || r is Remove)
        }),
{
}

/// How many steps a run has left at most.
pub open spec fn steps_left(plan: Seq<Group>, c: Cursor) -> int {
    let base = 4 * (total_of(plan) - c.done) + 2 * (plan.len() - c.group);
    match c.phase {
        Phase::Start => base + 5,
        Phase::AwaitDir => base + 4,
        Phase::AwaitCreate => base + 3,
        Phase::AwaitExists => base + 4,
        Phase::AwaitCopy => base + 3,
        Phase::AwaitRemove => base + 2,
        Phase::Done => 0,
    }
}

/// Every run ends: each step before the end brings the run closer to it, and
/// a step asks to finish exactly when it ends the run.
pub proof fn run_ends(plan: Seq<Group>, dir: Seq<char>, dry: bool, c: Cursor, o: Outcome)
    requires
        inv(plan, total_of(plan), c),
        c.phase != Phase::Done,
    ensures
        ({
            let (c2, ms, r) = next(plan, dir, dry, total_of(plan), c, o);
            &&& 0 <= steps_left(plan, c2) < steps_left(plan, c)
            &&& (r is Finish <==> c2.phase == Phase::Done)
        }),
{
    next_keeps_inv(plan, dir, dry, c, o);
    let c2 = next(plan, dir, dry, total_of(plan), c, o).0;
    lemma_before_all(plan);
    if c.group < plan.len() {
        lemma_before_step(plan, c.group as int);
        lemma_before_monotone(plan, c.group as int + 1, plan.len() as int);
    }
    if c2.group < plan.len() {
        lemma_before_step(plan, c2.group as int);
        lemma_before_monotone(plan, c2.group as int + 1, plan.len() as int);
    }
}

/// Where a run goes from `c` when fed the outcomes `os` in order, and the
/// notes it gives on the way; it stops at the end of the run.
pub open spec fn run_from(plan: Seq<Group>, dir: Seq<char>, dry: bool, c: Cursor, os: Seq<Outcome>) -> (Cursor, Seq<NoteView>)
    decreases os.len(),
{
    if os.len() == 0 || c.phase == Phase::Done {
        (c, seq![])
    } else {
        let (c2, ms, _r) = next(plan, dir, dry, total_of(plan), c, os[0]);
        let (c3, rest) = run_from(plan, dir, dry, c2, os.drop_first());
        (c3, ms + rest)
    }
}

/// The progress notes among `ms`, as (value, max), in order.
pub open spec fn progress_of(ms: Seq<NoteView>) -> Seq<(nat, nat)>
    decreases ms.len(),
{
    if ms.len() == 0 {
        seq![]
    } else {
        let rest = progress_of(ms.drop_first());
        match ms[0] {
            NoteView::Progress(v, m) => seq![(v, m)] + rest,
            _ => rest,
        }
    }
}

/// The progress notes `from + 1, from + 2, ..., to`, each out of `total`.
pub open spec fn count_up(from: nat, to: nat, total: nat) -> Seq<(nat, nat)> {
    Seq::new((to - from) as nat, |i: int| ((from + 1 + i) as nat, total))
}

proof fn lemma_progress_concat(a: Seq<NoteView>, b: Seq<NoteView>)
    ensures
        progress_of(a + b) == progress_of(a) + progress_of(b),
    decreases a.len(),
{
    if a.len() == 0 {
        assert(a + b =~= b);
    } else {
        assert((a + b).drop_first() =~= a.drop_first() + b);
        lemma_progress_concat(a.drop_first(), b);
    }
}

proof fn lemma_progress_none(ms: Seq<NoteView>)
    requires
        forall|i: int| 0 <= i < ms.len() ==> !(#[trigger] ms[i] is Progress),
    ensures
        progress_of(ms) == Seq::<(nat, nat)>::empty(),
    decreases ms.len(),
{
    if ms.len() > 0 {
        assert(!(ms[0] is Progress));
        assert forall|i: int| 0 <= i < ms.drop_first().len() implies !(#[trigger] ms.drop_first()[i] is Progress) by {
            assert(!(ms[i + 1] is Progress));
        }
        lemma_progress_none(ms.drop_first());
    }
}

proof fn lemma_progress_one(ms: Seq<NoteView>, k: int, v: nat, m: nat)
    requires
        0 <= k < ms.len(),
        ms[k] == NoteView::Progress(v, m),
        forall|i: int| 0 <= i < ms.len() && i != k ==> !(#[trigger] ms[i] is Progress),
    ensures
        progress_of(ms) == seq![(v, m)],
    decreases ms.len(),
{
    if k == 0 {
        assert forall|i: int| 0 <= i < ms.drop_first().len() implies !(#[trigger] ms.drop_first()[i] is Progress) by {
            assert(!(ms[i + 1] is Progress));
        }
        lemma_progress_none(ms.drop_first());
        assert(seq![(v, m)] + Seq::<(nat, nat)>::empty() =~= seq![(v, m)]);
    } else {
        assert(!(ms[0] is Progress));
        assert forall|i: int| 0 <= i < ms.drop_first().len() && i != k - 1 implies !(#[trigger] ms.drop_first()[i] is Progress) by {
            assert(!(ms[i + 1] is Progress));
        }
        lemma_progress_one(ms.drop_first(), k - 1, v, m);
    }
}

/// Over a whole run, however the requests turn out, the progress notes
/// count up by one from where the run stood: `1, 2, ..., n` from the start,
/// each out of the plan's total, and `n` never passes that total.
pub proof fn progress_over_run(plan: Seq<Group>, dir: Seq<char>, dry: bool, c: Cursor, os: Seq<Outcome>)
    requires
        inv(plan, total_of(plan), c),
    ensures
        ({
            let (c2, ms) = run_from(plan, dir, dry, c, os);
            &&& inv(plan, total_of(plan), c2)
            &&& c.done <= c2.done <= total_of(plan)
            &&& progress_of(ms) == count_up(c.done, c2.done, total_of(plan))
        }),
    decreases os.len(),
{
    let total = total_of(plan);
    if os.len() == 0 || c.phase == Phase::Done {
        assert(count_up(c.done, c.done, total) =~= Seq::<(nat, nat)>::empty());
        if c.phase != Phase::Done {
            progress_counts_up(plan, dir, dry, c, Outcome::Completed);
        } else {
            lemma_before_monotone(plan, c.group as int, plan.len() as int);
            lemma_before_all(plan);
        }
    } else {
        let (c1, ms1, _r) = next(plan, dir, dry, total, c, os[0]);
        progress_counts_up(plan, dir, dry, c, os[0]);
        next_keeps_inv(plan, dir, dry, c, os[0]);
        progress_over_run(plan, dir, dry, c1, os.drop_first());
        let (c2, rest) = run_from(plan, dir, dry, c1, os.drop_first());
        lemma_progress_concat(ms1, rest);
        if c1.done == c.done + 1 {
            let k = choose|i: int| 0 <= i < ms1.len() && ms1[i] == NoteView::Progress(c.done + 1, total);
            lemma_progress_one(ms1, k, c.done + 1, total);
            assert(seq![((c.done + 1) as nat, total)] + count_up(c1.done, c2.done, total) =~= count_up(c.done, c2.done, total));
        } else {
            lemma_progress_none(ms1);
            assert(Seq::<(nat, nat)>::empty() + count_up(c1.done, c2.done, total) =~= count_up(c.done, c2.done, total));
        }
    }
}

/// The result a run from `c` finishes with when fed the outcomes `os`, or
/// `None` where it has not finished by their end.
pub open spec fn finish_of(plan: Seq<Group>, dir: Seq<char>, dry: bool, c: Cursor, os: Seq<Outcome>) -> Option<Result<(), Seq<char>>>
    decreases os.len(),
{
    if os.len() == 0 || c.phase == Phase::Done {
        None
    } else {
        let (c2, _ms, r) = next(plan, dir, dry, total_of(plan), c, os[0]);
        match r {
            RequestView::Finish(res) => Some(res),
            _ => finish_of(plan, dir, dry, c2, os.drop_first()),
        }
    }
}

/// A run over a plan whose every group is a list of strings succeeds,
/// whatever the outcomes on disk: it finishes within `steps_left` steps of
/// where it stands, and when it finishes, it finishes with success.
pub proof fn valid_plan_run_succeeds(plan: Seq<Group>, dir: Seq<char>, dry: bool, c: Cursor, os: Seq<Outcome>)
    requires
        inv(plan, total_of(plan), c),
        c.phase != Phase::Done,
        forall|j: int| 0 <= j < plan.len() ==> is_valid(#[trigger] plan[j].entries),
    ensures
        finish_of(plan, dir, dry, c, os) is None || finish_of(plan, dir, dry, c, os) == Some(Ok::<(), Seq<char>>(())),
        os.len() >= steps_left(plan, c) ==> finish_of(plan, dir, dry, c, os) == Some(Ok::<(), Seq<char>>(())),
    decreases os.len(),
{
    run_ends(plan, dir, dry, c, Outcome::Completed);
    if os.len() > 0 {
        let (c2, _ms, r) = next(plan, dir, dry, total_of(plan), c, os[0]);
        valid_plan_succeeds(plan, dir, dry, c, os[0]);
        run_ends(plan, dir, dry, c, os[0]);
        next_keeps_inv(plan, dir, dry, c, os[0]);
        if !(r is Finish) {
            valid_plan_run_succeeds(plan, dir, dry, c2, os.drop_first());
        }
    }
}

/// A run over a plan with a group `k` that is not a list of strings never
/// gets past it: when it finishes, it finishes with the failure "Expected
/// array of strings.", and every progress note it gives counts a file of a
/// group before `k`.
pub proof fn malformed_plan_run_fails(
    plan: Seq<Group>,
    dir: Seq<char>,
    dry: bool,
    os: Seq<Outcome>,
    k: int,
)
    requires
        0 <= k < plan.len(),
        !is_valid(plan[k].entries),
    ensures
        finish_of(plan, dir, dry, start_cursor(), os) is None
            || finish_of(plan, dir, dry, start_cursor(), os) == Some(Err::<(), Seq<char>>(expected_text())),
        ({
            let (c2, ms) = run_from(plan, dir, dry, start_cursor(), os);
            &&& c2.group <= k
            &&& forall|i: int| 0 <= i < progress_of(ms).len() ==> (#[trigger] progress_of(ms)[i]).0 <= before(plan, k)
        }),
{
    lemma_malformed_run(plan, dir, dry, start_cursor(), os, k);
    progress_over_run(plan, dir, dry, start_cursor(), os);
    let (c2, ms) = run_from(plan, dir, dry, start_cursor(), os);
    if c2.phase != Phase::Start && c2.phase != Phase::AwaitDir && c2.phase != Phase::Done {
        assert(c2.group != k);
        lemma_before_step(plan, c2.group as int);
        lemma_before_monotone(plan, c2.group as int + 1, k);
    } else if c2.phase == Phase::Done {
        lemma_before_monotone(plan, c2.group as int, k);
    }
}

proof fn lemma_malformed_run(plan: Seq<Group>, dir: Seq<char>, dry: bool, c: Cursor, os: Seq<Outcome>, k: int)
    requires
        inv(plan, total_of(plan), c),
        c.group <= k,
        0 <= k < plan.len(),
        !is_valid(plan[k].entries),
    ensures
        finish_of(plan, dir, dry, c, os) is None
            || finish_of(plan, dir, dry, c, os) == Some(Err::<(), Seq<char>>(expected_text())),
        run_from(plan, dir, dry, c, os).0.group <= k,
    decreases os.len(),
{
    if os.len() > 0 && c.phase != Phase::Done {
        let (c2, _ms, r) = next(plan, dir, dry, total_of(plan), c, os[0]);
        malformed_group_stops_run(plan, dir, dry, c, os[0], k);
        next_keeps_inv(plan, dir, dry, c, os[0]);
        lemma_malformed_run(plan, dir, dry, c2, os.drop_first(), k);
    }
}

} // verus!
