//! The plan data model: an ordered pipeline of tasks, and its normalization
//! for execution or submission.

use vstd::prelude::*;

use crate::text::{str_eq_str, u64_dec_string, spec_dec};

verus! {

/// One task of a plan: a command, its arguments, a timeout, and an optional
/// dependency on an earlier task's output.
#[derive(Debug, Clone)]
pub struct PlanStep {
    pub task_number: u32,
    pub command: String,
    pub args: Vec<String>,
    pub timeout_secs: u32,
    pub input_from_task: Option<u32>,
}

/// An ordered pipeline of tasks, with optional identifiers.
#[derive(Debug, Clone)]
pub struct WorkflowPlan {
    pub plan_id: Option<String>,
    pub plan_description: Option<String>,
    pub tasks: Vec<PlanStep>,
}

/// The mathematical model of a task.
#[verifier::ext_equal]
pub ghost struct PlanStepV {
    pub task_number: u32,
    pub command: Seq<char>,
    pub args: Seq<Seq<char>>,
    pub timeout_secs: u32,
    pub input_from_task: Option<u32>,
}

/// The mathematical model of a plan.
#[verifier::ext_equal]
pub ghost struct WorkflowPlanV {
    pub plan_id: Option<Seq<char>>,
    pub plan_description: Option<Seq<char>>,
    pub tasks: Seq<PlanStepV>,
}

impl View for PlanStep {
    type V = PlanStepV;

    open spec fn view(&self) -> PlanStepV {
        PlanStepV {
            task_number: self.task_number,
            command: self.command@,
            args: Seq::new(self.args@.len(), |k: int| self.args@[k]@),
            timeout_secs: self.timeout_secs,
            input_from_task: self.input_from_task,
        }
    }
}

/// The models of a sequence of tasks, task by task.
pub open spec fn plan_steps_view(tasks: Seq<PlanStep>) -> Seq<PlanStepV> {
    Seq::new(tasks.len(), |k: int| tasks[k]@)
}

/// The model of an optional string.
pub open spec fn opt_string_view(s: Option<String>) -> Option<Seq<char>> {
    match s {
        Some(x) => Some(x@),
        None => None,
    }
}

impl View for WorkflowPlan {
    type V = WorkflowPlanV;

    open spec fn view(&self) -> WorkflowPlanV {
        WorkflowPlanV {
            plan_id: opt_string_view(self.plan_id),
            plan_description: opt_string_view(self.plan_description),
            tasks: plan_steps_view(self.tasks@),
        }
    }
}

impl Default for WorkflowPlan {
    /// An empty plan with no identifiers.
    fn default() -> (r: Self)
        ensures
            r@.plan_id is None,
            r@.plan_description is None,
            r@.tasks.len() == 0,
    {
        WorkflowPlan { plan_id: None, plan_description: None, tasks: Vec::new() }
    }
}

/// The model of the task `sort` inserted before a lone `uniq`.
pub open spec fn spec_sort_step() -> PlanStepV {
    PlanStepV {
        task_number: 1,
        command: "sort"@,
        args: Seq::empty(),
        timeout_secs: 300,
        input_from_task: None,
    }
}

/// The model of the task `uniq` fed from the inserted `sort`.
pub open spec fn spec_uniq_step() -> PlanStepV {
    PlanStepV {
        task_number: 2,
        command: "uniq"@,
        args: Seq::empty(),
        timeout_secs: 300,
        input_from_task: Some(1u32),
    }
}

/// A plan whose single task is the deduplication tool is rewritten to sort
/// first: the tool only behaves correctly on sorted input.
pub open spec fn spec_uniq_expand(tasks: Seq<PlanStepV>) -> Seq<PlanStepV> {
    if tasks.len() == 1 && tasks[0].command == "uniq"@ {
        seq![spec_sort_step(), spec_uniq_step()]
    } else {
        tasks
    }
}

/// The tasks renumbered contiguously from one, everything else unchanged.
pub open spec fn spec_renumber(tasks: Seq<PlanStepV>) -> Seq<PlanStepV> {
    Seq::new(
        tasks.len(),
        |k: int| PlanStepV { task_number: ((k + 1) as u32), ..tasks[k] },
    )
}

/// The normal form of a plan: the lone-`uniq` rewrite, then contiguous
/// numbering from one.
pub open spec fn spec_normalize(p: WorkflowPlanV) -> WorkflowPlanV {
    WorkflowPlanV { tasks: spec_renumber(spec_uniq_expand(p.tasks)), ..p }
}

/// Normalization is idempotent: a plan already in normal form is unchanged.
pub proof fn lemma_normalize_idempotent(p: WorkflowPlanV)
    ensures
        spec_normalize(spec_normalize(p)) == spec_normalize(p),
{
    let once = spec_normalize(p);
    let t1 = spec_renumber(spec_uniq_expand(p.tasks));
    if t1.len() == 1 && t1[0].command == "uniq"@ {
        assert(spec_uniq_expand(p.tasks).len() == 1);
        assert(spec_uniq_expand(p.tasks)[0].command == "uniq"@);
        assert(p.tasks.len() != 1 || p.tasks[0].command != "uniq"@);
        assert(false);
    }
    assert(spec_uniq_expand(once.tasks) == once.tasks);
    assert(spec_renumber(once.tasks) =~= once.tasks);
    assert(spec_normalize(once) =~= once);
}

/// After normalization the task numbers are exactly 1..N, in order.
pub proof fn lemma_normalize_contiguous(p: WorkflowPlanV)
    requires
        p.tasks.len() <= u32::MAX,
    ensures
        forall|k: int|
            0 <= k < spec_normalize(p).tasks.len() ==> (#[trigger] spec_normalize(
                p,
            ).tasks[k]).task_number == k + 1,
{
}

impl WorkflowPlan {
    /// The plan in its normal form: a lone `uniq` task becomes `sort` then
    /// `uniq` fed from it, and task numbers are made contiguous from one.
    pub fn normalize_for_execution(self) -> (r: Self)
        requires
            self@.tasks.len() <= u32::MAX,
        ensures
            r@ == spec_normalize(self@),
            forall|k: int|
                0 <= k < r@.tasks.len() ==> (#[trigger] r@.tasks[k]).task_number == k + 1,
    {
        proof {
            lemma_normalize_contiguous(self@);
        }
        let WorkflowPlan { plan_id, plan_description, tasks } = self;
        let ghost orig = plan_steps_view(tasks@);
        let mut rest = tasks;
        let mut out: Vec<PlanStep>;
        if rest.len() == 1 && str_eq_str(rest[0].command.as_str(), "uniq") {
            out = Vec::new();
            out.push(
                PlanStep {
                    task_number: 1,
                    command: "sort".to_owned(),
                    args: Vec::new(),
                    timeout_secs: 300,
                    input_from_task: None,
                },
            );
            out.push(
                PlanStep {
                    task_number: 2,
                    command: "uniq".to_owned(),
                    args: Vec::new(),
                    timeout_secs: 300,
                    input_from_task: Some(1),
                },
            );
            proof {
                assert(orig[0] == rest@[0]@);
                assert(spec_uniq_expand(orig) == seq![spec_sort_step(), spec_uniq_step()]);
                assert(plan_steps_view(out@)[0] =~~= spec_sort_step());
                assert(plan_steps_view(out@)[1] =~~= spec_uniq_step());
                assert(plan_steps_view(out@) =~~= spec_uniq_expand(orig));
                assert(spec_renumber(spec_uniq_expand(orig))[0] =~~= spec_sort_step());
                assert(spec_renumber(spec_uniq_expand(orig))[1] =~~= spec_uniq_step());
                assert(plan_steps_view(out@) =~~= spec_renumber(spec_uniq_expand(orig)));
            }
        } else {
            proof {
                assert(spec_uniq_expand(orig) == orig);
            }
            out = Vec::new();
            let ghost expanded = spec_uniq_expand(orig);
            while rest.len() > 0
                invariant
                    expanded == orig,
                    orig.len() == out@.len() + rest@.len(),
                    orig.len() <= u32::MAX,
                    forall|k: int|
                        0 <= k < rest@.len() ==> orig[out@.len() + k] == (#[trigger] rest@[k])@,
                    plan_steps_view(out@) =~= spec_renumber(orig).subrange(0, out@.len() as int),
                decreases rest@.len(),
            {
                let mut t = rest.remove(0);
                let n = out.len();
                t.task_number = (n + 1) as u32;
                out.push(t);
                proof {
                    assert(plan_steps_view(out@) =~= spec_renumber(orig).subrange(
                        0,
                        out@.len() as int,
                    ));
                }
            }
            proof {
                assert(spec_renumber(orig).subrange(0, out@.len() as int) =~= spec_renumber(orig));
            }
        }
        let r = WorkflowPlan { plan_id, plan_description, tasks: out };
        proof {
            assert(r@ =~= spec_normalize(WorkflowPlanV {
                plan_id: opt_string_view(r.plan_id),
                plan_description: opt_string_view(r.plan_description),
                tasks: orig,
            }));
        }
        r
    }

    /// Appends freshly planned tasks to an existing buffer: the new tasks are
    /// renumbered past the buffered ones, and their dependency links are
    /// shifted with them; buffered tasks are untouched.
    pub fn append_tasks(&mut self, new_tasks: Vec<PlanStep>)
        requires
            old(self).tasks@.len() <= u32::MAX,
            forall|k: int|
                0 <= k < new_tasks@.len() ==> (#[trigger] new_tasks@[k]).task_number + old(
                    self,
                ).tasks@.len() <= u32::MAX,
            forall|k: int|
                0 <= k < new_tasks@.len() ==> ((#[trigger] new_tasks@[k]).input_from_task matches
                    Some(r) ==> r + old(self).tasks@.len() <= u32::MAX),
        ensures
            final(self).plan_id == old(self).plan_id,
            final(self).plan_description == old(self).plan_description,
            final(self).tasks@.len() == old(self).tasks@.len() + new_tasks@.len(),
            forall|k: int|
                0 <= k < old(self).tasks@.len() ==> final(self).tasks@[k] == old(
                    self,
                ).tasks@[k],
            forall|k: int|
                0 <= k < new_tasks@.len() ==> (#[trigger] final(self).tasks@[old(
                    self,
                ).tasks@.len() + k])@ == spec_shift_step(new_tasks@[k]@, old(self).tasks@.len() as u32),
    {
        let offset = self.tasks.len() as u32;
        let ghost base = self.tasks@;
        let mut rest = new_tasks;
        while rest.len() > 0
            invariant
                base.len() == offset,
                forall|k: int|
                    0 <= k < new_tasks@.len() ==> (#[trigger] new_tasks@[k]).task_number
                        + base.len() <= u32::MAX,
                forall|k: int|
                    0 <= k < new_tasks@.len() ==> ((#[trigger] new_tasks@[k]).input_from_task
                        matches Some(r) ==> r + base.len() <= u32::MAX),
                self.tasks@.len() + rest@.len() == base.len() + new_tasks@.len(),
                self.tasks@.len() >= base.len(),
                self.plan_id == old(self).plan_id,
                self.plan_description == old(self).plan_description,
                forall|k: int| 0 <= k < base.len() ==> self.tasks@[k] == base[k],
                forall|k: int|
                    0 <= k < self.tasks@.len() - base.len() ==> (#[trigger] self.tasks@[base.len()
                        + k])@ == spec_shift_step(new_tasks@[k]@, offset),
                forall|k: int|
                    0 <= k < rest@.len() ==> #[trigger] rest@[k] == new_tasks@[self.tasks@.len()
                        - base.len() + k],
            decreases rest@.len(),
        {
            let mut t = rest.remove(0);
            let ghost idx = self.tasks@.len() - base.len();
            proof {
                assert(t == new_tasks@[idx]);
                assert(new_tasks@[idx].task_number + base.len() <= u32::MAX);
                assert(new_tasks@[idx].input_from_task matches Some(r) ==> r + base.len()
                    <= u32::MAX);
            }
            t.task_number = t.task_number + offset;
            t.input_from_task = match t.input_from_task {
                Some(r) => Some(r + offset),
                None => None,
            };
            self.tasks.push(t);
        }
    }
}

/// The model of a newly appended task: its number and its dependency link,
/// if any, shifted past the tasks already in the buffer.
pub open spec fn spec_shift_step(t: PlanStepV, offset: u32) -> PlanStepV {
    PlanStepV {
        task_number: (t.task_number + offset) as u32,
        input_from_task: match t.input_from_task {
            Some(r) => Some(((r + offset) as u32)),
            None => None,
        },
        ..t
    }
}

/// What changed between a plan and its validated replacement, by command
/// names.
#[derive(Debug)]
pub struct PlanDiff {
    pub added: Vec<String>,
    pub removed: Vec<String>,
    pub task_count_change: i64,
    pub summary: String,
}

/// Whether `s` occurs in `items`.
pub open spec fn spec_contains_str(items: Seq<Seq<char>>, s: Seq<char>) -> bool {
    exists|k: int| 0 <= k < items.len() && items[k] == s
}

/// The commands of a plan's tasks, in order.
pub open spec fn spec_commands(tasks: Seq<PlanStepV>) -> Seq<Seq<char>> {
    Seq::new(tasks.len(), |k: int| tasks[k].command)
}

/// Whether `s` occurs among the commands of `tasks`.
fn commands_contain(tasks: &Vec<PlanStep>, s: &str) -> (r: bool)
    ensures
        r == spec_contains_str(spec_commands(plan_steps_view(tasks@)), s@),
{
    let ghost cmds = spec_commands(plan_steps_view(tasks@));
    let mut k: usize = 0;
    while k < tasks.len()
        invariant
            k <= tasks@.len(),
            cmds == spec_commands(plan_steps_view(tasks@)),
            cmds.len() == tasks@.len(),
            forall|m: int| 0 <= m < tasks@.len() ==> cmds[m] == (#[trigger] tasks@[m])@.command,
            forall|m: int| 0 <= m < k ==> cmds[m] != s@,
        decreases tasks@.len() - k,
    {
        if str_eq_str(tasks[k].command.as_str(), s) {
            return true;
        }
        k = k + 1;
    }
    false
}

/// The commands of `from` that do not occur in `others`, in order, duplicates
/// kept.
pub open spec fn spec_command_diff(from: Seq<PlanStepV>, others: Seq<PlanStepV>) -> Seq<Seq<char>>
    decreases from.len(),
{
    if from.len() == 0 {
        Seq::empty()
    } else {
        let rest = spec_command_diff(from.drop_last(), others);
        if spec_contains_str(spec_commands(others), from.last().command) {
            rest
        } else {
            rest.push(from.last().command)
        }
    }
}

/// The commands of `from` not occurring in `others`.
fn command_diff(from: &Vec<PlanStep>, others: &Vec<PlanStep>) -> (r: Vec<String>)
    ensures
        Seq::new(r@.len(), |k: int| r@[k]@) == spec_command_diff(
            plan_steps_view(from@),
            plan_steps_view(others@),
        ),
{
    let mut out: Vec<String> = Vec::new();
    let mut k: usize = 0;
    while k < from.len()
        invariant
            k <= from@.len(),
            Seq::new(out@.len(), |m: int| out@[m]@) =~= spec_command_diff(
                plan_steps_view(from@).subrange(0, k as int),
                plan_steps_view(others@),
            ),
        decreases from@.len() - k,
    {
        let ghost pre = plan_steps_view(from@).subrange(0, k as int);
        let ghost cur = plan_steps_view(from@).subrange(0, k + 1);
        proof {
            assert(cur.drop_last() =~= pre);
            assert(cur.last() == from@[k as int]@);
        }
        if !commands_contain(others, from[k].command.as_str()) {
            out.push(from[k].command.clone());
        }
        k = k + 1;
        proof {
            assert(Seq::new(out@.len(), |m: int| out@[m]@) =~= spec_command_diff(
                cur,
                plan_steps_view(others@),
            ));
        }
    }
    proof {
        assert(plan_steps_view(from@).subrange(0, from@.len() as int) =~= plan_steps_view(from@));
    }
    out
}

/// Compares a plan with its validated replacement: which commands appeared,
/// which disappeared, and how the task count moved.
pub fn plan_diff(original: &WorkflowPlan, validated: &WorkflowPlan) -> (r: PlanDiff)
    requires
        original.tasks@.len() <= i64::MAX,
        validated.tasks@.len() <= i64::MAX,
    ensures
        Seq::new(r.added@.len(), |k: int| r.added@[k]@) == spec_command_diff(
            validated@.tasks,
            original@.tasks,
        ),
        Seq::new(r.removed@.len(), |k: int| r.removed@[k]@) == spec_command_diff(
            original@.tasks,
            validated@.tasks,
        ),
        r.task_count_change == validated.tasks@.len() - original.tasks@.len(),
        r.summary@ == spec_diff_summary(validated.tasks@.len() - original.tasks@.len()),
{
    let added = command_diff(&validated.tasks, &original.tasks);
    let removed = command_diff(&original.tasks, &validated.tasks);
    let change: i64 = validated.tasks.len() as i64 - original.tasks.len() as i64;
    let summary: String;
    if change > 0 {
        let mut s = "Added ".to_owned();
        s.append(u64_dec_string(change as u64).as_str());
        s.append(" task(s)");
        summary = s;
    } else if change < 0 {
        let mut s = "Removed ".to_owned();
        let mag: u64 = (-change) as u64;
        s.append(u64_dec_string(mag).as_str());
        s.append(" task(s)");
        summary = s;
    } else {
        summary = "No change in task count".to_owned();
    }
    PlanDiff { added, removed, task_count_change: change, summary }
}

/// The human summary of a task-count change.
pub open spec fn spec_diff_summary(change: int) -> Seq<char> {
    if change > 0 {
        "Added "@ + spec_dec(change as nat) + " task(s)"@
    } else if change < 0 {
        "Removed "@ + spec_dec((-change) as nat) + " task(s)"@
    } else {
        "No change in task count"@
    }
}

} // verus!
