//! The job envelope: a validated plan wrapped with freshly assigned
//! submission identifiers, and the checks every plan must pass before
//! submission or execution.

use vstd::prelude::*;

use crate::plan::{opt_string_view, plan_steps_view, PlanStepV, WorkflowPlan};
use crate::text::u64_dec_string;

verus! {

/// One task of a job envelope; the same shape as a plan task.
#[derive(Debug, Clone)]
pub struct JobTask {
    pub task_number: u32,
    pub command: String,
    pub args: Vec<String>,
    pub timeout_secs: u32,
    pub input_from_task: Option<u32>,
}

impl View for JobTask {
    type V = PlanStepV;

    open spec fn view(&self) -> PlanStepV {
        PlanStepV {
            task_number: self.task_number,
            command: self.command@,
            args: Seq::new(self.args@.len(), |k: int| self.args@[k]@),
            timeout_secs: self.timeout_secs,
            input_from_task: self.input_from_task,
        }
    }
}

/// The models of a sequence of job tasks.
pub open spec fn job_tasks_view(tasks: Seq<JobTask>) -> Seq<PlanStepV> {
    Seq::new(tasks.len(), |k: int| tasks[k]@)
}

/// A submission-ready envelope: identifiers plus the plan's tasks, numbered
/// contiguously from one. Immutable once built.
#[derive(Debug, Clone)]
pub struct JobEnvelope {
    pub job_id: String,
    pub plan_id: String,
    pub plan_description: Option<String>,
    pub tasks: Vec<JobTask>,
}

/// Why an envelope was refused.
#[derive(Debug, Clone, PartialEq, Eq, Structural)]
pub enum EnvelopeValidationError {
    /// The plan has no tasks.
    EmptyTasks,
    /// The plan has more tasks than the given maximum; carries the count.
    TooManyTasks(usize),
    /// Adjacent task numbers do not rise by exactly one.
    NonMonotonicTasks,
    /// A task draws its input from a task that is not strictly earlier;
    /// carries the offending reference.
    BadInputReference(u32),
    /// The first task is not numbered one; carries the number found.
    FirstTaskNotOne(u32),
}

impl EnvelopeValidationError {
    /// A short account of the failure.
    pub fn describe(&self) -> (r: String)
        ensures
            self is EmptyTasks ==> r@ == "plan contains no tasks"@,
            self is NonMonotonicTasks ==> r@ == "task numbers must be contiguous starting at 1"@,
    {
        match self {
            EnvelopeValidationError::EmptyTasks => "plan contains no tasks".to_owned(),
            EnvelopeValidationError::TooManyTasks(count) => {
                let mut s = "plan has too many tasks (".to_owned();
                s.append(u64_dec_string(*count as u64).as_str());
                s.append(")");
                s
            },
            EnvelopeValidationError::NonMonotonicTasks => (
            "task numbers must be contiguous starting at 1").to_owned(),
            EnvelopeValidationError::BadInputReference(task) => {
                let mut s = "input_from_task references invalid task ".to_owned();
                s.append(u64_dec_string(*task as u64).as_str());
                s
            },
            EnvelopeValidationError::FirstTaskNotOne(n) => {
                let mut s = "first task number must be 1 (found ".to_owned();
                s.append(u64_dec_string(*n as u64).as_str());
                s.append(")");
                s
            },
        }
    }
}

/// Whether adjacent task numbers rise by exactly one.
pub open spec fn spec_monotonic(tasks: Seq<PlanStepV>) -> bool {
    forall|k: int|
        0 <= k < tasks.len() - 1 ==> (#[trigger] tasks[k]).task_number + 1 == tasks[k
            + 1].task_number
}

/// Whether every dependency reference names a strictly earlier task that has
/// already occurred in a left-to-right scan.
pub open spec fn spec_refs_valid(tasks: Seq<PlanStepV>) -> bool {
    forall|k: int|
        0 <= k < tasks.len() ==> ((#[trigger] tasks[k]).input_from_task matches Some(r) ==> (r
            < tasks[k].task_number && exists|m: int|
            0 <= m <= k && (#[trigger] tasks[m]).task_number == r))
}

/// The first reference, scanning left to right, that names a task that is
/// not strictly earlier or was not yet seen.
pub open spec fn spec_first_bad_ref(tasks: Seq<PlanStepV>, i: int) -> Option<u32>
    decreases tasks.len() - i,
{
    if !(0 <= i < tasks.len()) {
        None
    } else {
        match tasks[i].input_from_task {
            Some(r) => if r >= tasks[i].task_number || !(exists|m: int|
                0 <= m <= i && (#[trigger] tasks[m]).task_number == r) {
                Some(r)
            } else {
                spec_first_bad_ref(tasks, i + 1)
            },
            None => spec_first_bad_ref(tasks, i + 1),
        }
    }
}

/// The outcome the validation owes for an envelope with these tasks and
/// this maximum: the checks run in a fixed order and report the first
/// failure.
pub open spec fn spec_validate(tasks: Seq<PlanStepV>, max_tasks: int) -> Result<
    (),
    EnvelopeValidationError,
> {
    if tasks.len() == 0 {
        Err(EnvelopeValidationError::EmptyTasks)
    } else if tasks[0].task_number != 1 {
        Err(EnvelopeValidationError::FirstTaskNotOne(tasks[0].task_number))
    } else if tasks.len() > max_tasks {
        Err(EnvelopeValidationError::TooManyTasks(tasks.len() as usize))
    } else if !spec_monotonic(tasks) {
        Err(EnvelopeValidationError::NonMonotonicTasks)
    } else {
        match spec_first_bad_ref(tasks, 0) {
            Some(r) => Err(EnvelopeValidationError::BadInputReference(r)),
            None => Ok(()),
        }
    }
}

/// A validated envelope has only backward dependency references: every
/// reference is strictly below its owner's number and names a task already
/// seen.
pub proof fn lemma_validated_refs_backward(tasks: Seq<PlanStepV>, max_tasks: int)
    requires
        spec_validate(tasks, max_tasks) is Ok,
    ensures
        spec_refs_valid(tasks),
{
    lemma_no_bad_ref_from(tasks, 0);
}

/// If no bad reference is found from `i` on, every reference from `i` on is
/// backward and already seen.
proof fn lemma_no_bad_ref_from(tasks: Seq<PlanStepV>, i: int)
    requires
        0 <= i,
        spec_first_bad_ref(tasks, i) is None,
    ensures
        forall|k: int|
            i <= k < tasks.len() ==> ((#[trigger] tasks[k]).input_from_task matches Some(r) ==> (r
                < tasks[k].task_number && exists|m: int|
                0 <= m <= k && (#[trigger] tasks[m]).task_number == r)),
    decreases tasks.len() - i,
{
    if i < tasks.len() {
        lemma_no_bad_ref_from(tasks, i + 1);
    }
}

impl JobEnvelope {
    /// Builds an envelope from a plan: identifiers embedded in the plan win
    /// over the caller's fallbacks, and the tasks are renumbered contiguously
    /// from one regardless of upstream normalization.
    pub fn from_plan(
        plan: WorkflowPlan,
        job_id: String,
        plan_id_override: String,
        plan_description_override: Option<String>,
    ) -> (r: JobEnvelope)
        requires
            plan.tasks@.len() <= u32::MAX,
        ensures
            r.job_id@ == job_id@,
            r.plan_id@ == (match plan@.plan_id {
                Some(p) => p,
                None => plan_id_override@,
            }),
            opt_string_view(r.plan_description) == (match plan@.plan_description {
                Some(d) => Some(d),
                None => opt_string_view(plan_description_override),
            }),
            job_tasks_view(r.tasks@) == crate::plan::spec_renumber(plan@.tasks),
    {
        let WorkflowPlan { plan_id, plan_description, tasks } = plan;
        let plan_id = match plan_id {
            Some(p) => p,
            None => plan_id_override,
        };
        let plan_description = match plan_description {
            Some(d) => Some(d),
            None => plan_description_override,
        };
        let ghost orig = plan_steps_view(tasks@);
        let mut rest = tasks;
        let mut out: Vec<JobTask> = Vec::new();
        while rest.len() > 0
            invariant
                orig.len() == out@.len() + rest@.len(),
                orig.len() <= u32::MAX,
                forall|k: int|
                    0 <= k < rest@.len() ==> orig[out@.len() + k] == (#[trigger] rest@[k])@,
                job_tasks_view(out@) =~= crate::plan::spec_renumber(orig).subrange(
                    0,
                    out@.len() as int,
                ),
            decreases rest@.len(),
        {
            let t = rest.remove(0);
            let n = out.len();
            let jt = JobTask {
                task_number: (n + 1) as u32,
                command: t.command,
                args: t.args,
                timeout_secs: t.timeout_secs,
                input_from_task: t.input_from_task,
            };
            out.push(jt);
            proof {
                assert(job_tasks_view(out@) =~= crate::plan::spec_renumber(orig).subrange(
                    0,
                    out@.len() as int,
                ));
            }
        }
        proof {
            assert(crate::plan::spec_renumber(orig).subrange(0, out@.len() as int)
                =~= crate::plan::spec_renumber(orig));
        }
        JobEnvelope { job_id, plan_id, plan_description, tasks: out }
    }

    /// The admission rule before submission or execution: non-empty, first task
    /// numbered one, within the maximum, contiguous numbering, and every
    /// dependency reference strictly earlier and already seen; the checks run
    /// in this order and the first failure is reported.
    #[verifier::loop_isolation(false)]
    #[verifier::rlimit(60)]
    pub fn validate(&self, max_tasks: usize) -> (r: Result<(), EnvelopeValidationError>)
        ensures
            r == spec_validate(job_tasks_view(self.tasks@), max_tasks as int),
            r is Ok ==> spec_refs_valid(job_tasks_view(self.tasks@)),
    {
        let ghost ts = job_tasks_view(self.tasks@);
        if self.tasks.len() == 0 {
            return Err(EnvelopeValidationError::EmptyTasks);
        }
        if self.tasks[0].task_number != 1 {
            return Err(EnvelopeValidationError::FirstTaskNotOne(self.tasks[0].task_number));
        }
        if self.tasks.len() > max_tasks {
            return Err(EnvelopeValidationError::TooManyTasks(self.tasks.len()));
        }
        let n = self.tasks.len();
        let mut k: usize = 0;
        while k + 1 < n
            invariant
                k < n || n == 0,
                n == self.tasks@.len(),
                ts == job_tasks_view(self.tasks@),
                ts.len() == n,
                forall|m: int| 0 <= m < n ==> ts[m] == (#[trigger] self.tasks@[m])@,
                forall|m: int|
                    0 <= m < k ==> (#[trigger] ts[m]).task_number + 1 == ts[m + 1].task_number,
            decreases n - k,
        {
            if self.tasks[k].task_number >= u32::MAX || self.tasks[k].task_number + 1
                != self.tasks[k + 1].task_number {
                proof {
                    assert(!spec_monotonic(ts));
                }
                return Err(EnvelopeValidationError::NonMonotonicTasks);
            }
            k = k + 1;
        }
        proof {
            assert(spec_monotonic(ts));
        }
        let mut k: usize = 0;
        while k < n
            invariant
                k <= n,
                n == self.tasks@.len(),
                ts == job_tasks_view(self.tasks@),
                ts.len() == n,
                forall|m: int| 0 <= m < n ==> ts[m] == (#[trigger] self.tasks@[m])@,
                spec_first_bad_ref(ts, 0) == spec_first_bad_ref(ts, k as int),
            decreases n - k,
        {
            if let Some(r) = self.tasks[k].input_from_task {
                let mut seen = false;
                let mut m: usize = 0;
                while m <= k
                    invariant
                        m <= k + 1,
                        k < n,
                        n == self.tasks@.len(),
                        ts == job_tasks_view(self.tasks@),
                        ts.len() == n,
                        forall|q: int| 0 <= q < n ==> ts[q] == (#[trigger] self.tasks@[q])@,
                        seen == (exists|q: int|
                            0 <= q < m && (#[trigger] ts[q]).task_number == r),
                    decreases k + 1 - m,
                {
                    if self.tasks[m].task_number == r {
                        seen = true;
                    }
                    m = m + 1;
                }
                if r >= self.tasks[k].task_number || !seen {
                    proof {
                        assert(spec_first_bad_ref(ts, k as int) == Some(r));
                    }
                    return Err(EnvelopeValidationError::BadInputReference(r));
                }
            }
            k = k + 1;
        }
        proof {
            assert(spec_first_bad_ref(ts, k as int) is None);
            lemma_validated_refs_backward(ts, max_tasks as int);
        }
        Ok(())
    }
}

/// A fresh random identifier in hyphenated form.
///
/// Relies on `uuid::Uuid::new_v4` and its `Display` form: 36 characters,
/// lower-case hexadecimal digits and hyphens.
#[verifier::external_body]
fn fresh_uuid_hyphenated() -> (r: String)
    ensures
        r@.len() == 36,
        forall|k: int|
            0 <= k < r@.len() ==> (('0' <= #[trigger] r@[k] && r@[k] <= '9') || ('a' <= r@[k]
                && r@[k] <= 'f') || r@[k] == '-'),
{
    uuid::Uuid::new_v4().to_string()
}

/// A fresh random identifier in simple form.
///
/// Relies on `uuid::Uuid::new_v4` and its `simple` format: 32 lower-case
/// hexadecimal digits.
#[verifier::external_body]
fn fresh_uuid_simple() -> (r: String)
    ensures
        r@.len() == 32,
        forall|k: int|
            0 <= k < r@.len() ==> (('0' <= #[trigger] r@[k] && r@[k] <= '9') || ('a' <= r@[k]
                && r@[k] <= 'f')),
{
    uuid::Uuid::new_v4().simple().to_string()
}

/// A fresh action identifier: `action_` followed by 32 hexadecimal digits.
pub fn fresh_action_id() -> (r: String)
    ensures
        r@.len() == "action_"@.len() + 32,
        spec_starts_with_action(r@),
{
    let mut s = "action_".to_owned();
    s.append(fresh_uuid_simple().as_str());
    proof {
        reveal_strlit("action_");
        assert(s@.subrange(0, 7) =~= "action_"@);
    }
    s
}

/// Whether an action identifier carries the `action_` prefix.
pub open spec fn spec_starts_with_action(s: Seq<char>) -> bool {
    s.len() >= 7 && s.subrange(0, 7) == "action_"@
}

/// Builds and validates a submission envelope for a plan: fresh job and plan
/// identifiers, the caller's optional description as a fallback, and the
/// standard checks with the queue's task ceiling.
pub fn build_job_envelope(plan: WorkflowPlan, description: Option<String>) -> (r: Result<
    JobEnvelope,
    EnvelopeValidationError,
>)
    requires
        plan.tasks@.len() <= u32::MAX,
    ensures
        r matches Ok(env) ==> {
            &&& spec_validate(job_tasks_view(env.tasks@), 100) is Ok
            &&& spec_refs_valid(job_tasks_view(env.tasks@))
            &&& job_tasks_view(env.tasks@) == crate::plan::spec_renumber(plan@.tasks)
            &&& env.job_id@.len() == 36
            &&& (plan@.plan_id matches Some(p) ==> env.plan_id@ == p)
            &&& (plan@.plan_id is None ==> env.plan_id@.len() == 36)
            &&& opt_string_view(env.plan_description) == (match plan@.plan_description {
                Some(d) => Some(d),
                None => match opt_string_view(description) {
                    Some(d) => if d.len() > 0 {
                        Some(d)
                    } else {
                        None::<Seq<char>>
                    },
                    None => None::<Seq<char>>,
                },
            })
        },
        r matches Err(e) ==> Err::<(), _>(e) == spec_validate(
            crate::plan::spec_renumber(plan@.tasks),
            100,
        ),
{
    let job_id = fresh_uuid_hyphenated();
    let plan_id = fresh_uuid_hyphenated();
    let description = match description {
        Some(d) => if d.as_str().unicode_len() == 0 {
            None
        } else {
            Some(d)
        },
        None => None,
    };
    let env = JobEnvelope::from_plan(plan, job_id, plan_id, description);
    match env.validate(100) {
        Ok(_) => Ok(env),
        Err(e) => Err(e),
    }
}

} // verus!
