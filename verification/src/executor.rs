//! The pipeline executor's decisions: resolving every task's tool before
//! anything runs, judging each stage's exit against its tool's policy, and
//! carrying the data buffer from stage to stage. Spawning processes and
//! moving their bytes belong to the caller, which asks this session what to
//! run next and reports what came back.

use vstd::prelude::*;

use crate::json_print::spec_print_int;
use crate::plan::{PlanStepV, WorkflowPlan};
use crate::plan_parse::spec_trim;
use crate::registry::{spec_find_tool, ToolRegistry, ToolV};
use crate::text::str_chars;

verus! {

/// The local pipeline runner.
pub struct Executor;

impl Executor {
    /// A runner; it holds no state of its own.
    pub fn new() -> Executor {
        Executor
    }
}

/// One task resolved against the registry: the executable to run, the task's
/// arguments, and the exit codes counted as success.
#[derive(Debug, Clone)]
pub struct ResolvedStage {
    pub command: String,
    pub args: Vec<String>,
    pub ok_exit_codes: Vec<i32>,
}

/// The model of a resolved stage.
#[verifier::ext_equal]
pub ghost struct ResolvedStageV {
    pub command: Seq<char>,
    pub args: Seq<Seq<char>>,
    pub ok_exit_codes: Seq<int>,
}

impl View for ResolvedStage {
    type V = ResolvedStageV;

    open spec fn view(&self) -> ResolvedStageV {
        ResolvedStageV {
            command: self.command@,
            args: Seq::new(self.args@.len(), |k: int| self.args@[k]@),
            ok_exit_codes: Seq::new(
                self.ok_exit_codes@.len(),
                |k: int| self.ok_exit_codes@[k] as int,
            ),
        }
    }
}

/// The models of a run of stages.
pub open spec fn stages_view(s: Seq<ResolvedStage>) -> Seq<ResolvedStageV> {
    Seq::new(s.len(), |k: int| s[k]@)
}

/// The stages a plan resolves to against a registry, from task `i` on:
/// all-or-nothing, failing on the first unknown command.
pub open spec fn spec_resolve(tools: Seq<ToolV>, tasks: Seq<PlanStepV>, i: int) -> Option<
    Seq<ResolvedStageV>,
>
    decreases tasks.len() - i,
{
    if !(0 <= i < tasks.len()) {
        Some(Seq::empty())
    } else {
        match spec_find_tool(tools, tasks[i].command, 0) {
            Some(tool) => match spec_resolve(tools, tasks, i + 1) {
                Some(rest) => Some(
                    seq![
                        ResolvedStageV {
                            command: tool.command,
                            args: tasks[i].args,
                            ok_exit_codes: tool.ok_exit_codes,
                        },
                    ] + rest,
                ),
                None => None,
            },
            None => None,
        }
    }
}

/// The first task command, from `i` on, that the registry does not know.
pub open spec fn spec_first_unknown(tools: Seq<ToolV>, tasks: Seq<PlanStepV>, i: int) -> Option<
    Seq<char>,
>
    decreases tasks.len() - i,
{
    if !(0 <= i < tasks.len()) {
        None
    } else if spec_find_tool(tools, tasks[i].command, 0) is None {
        Some(tasks[i].command)
    } else {
        spec_first_unknown(tools, tasks, i + 1)
    }
}

/// Whether an exit is a success under a tool's policy: a code must be in the
/// tool's accepted set; with no code, the platform's own success notion
/// stands.
pub open spec fn spec_exit_ok(codes: Seq<int>, exit_code: Option<int>, success_flag: bool) -> bool {
    match exit_code {
        Some(c) => exists|k: int| 0 <= k < codes.len() && codes[k] == c,
        None => success_flag,
    }
}

/// The status text of a stage failure: the decimal exit code, or the word
/// for an exit without one.
pub open spec fn spec_status_text(exit_code: Option<int>) -> Seq<char> {
    match exit_code {
        Some(c) => spec_print_int(c),
        None => "signal"@,
    }
}

/// The account of a failed stage: its command, its status, and its trimmed
/// diagnostics.
pub open spec fn spec_stage_failure_msg(
    command: Seq<char>,
    exit_code: Option<int>,
    stderr: Seq<char>,
) -> Seq<char> {
    "command '"@ + command + "' failed with status "@ + spec_status_text(exit_code) + ": "@
        + spec_trim(stderr)
}

/// One run of a plan: the resolved stages, the index of the stage to run
/// next, and the data buffer flowing between stages. An empty plan is the
/// identity: it finishes at once and hands its input back.
#[derive(Debug)]
pub struct ExecSession {
    stages: Vec<ResolvedStage>,
    next: usize,
    data: Vec<u8>,
}

impl ExecSession {
    /// The resolved stages.
    pub closed spec fn spec_stages(&self) -> Seq<ResolvedStageV> {
        stages_view(self.stages@)
    }

    /// The index of the stage to run next.
    pub closed spec fn spec_next(&self) -> int {
        self.next as int
    }

    /// The data that feeds the next stage, or the final output.
    pub closed spec fn spec_data(&self) -> Seq<u8> {
        self.data@
    }

    /// The session's running bounds.
    pub closed spec fn wf(&self) -> bool {
        self.next <= self.stages@.len()
    }

    /// Resolves every task of the plan before anything runs: an unknown
    /// command fails the whole plan here, naming the command, and nothing
    /// downstream can start.
    pub fn prepare(plan: &WorkflowPlan, registry: &ToolRegistry, input: Vec<u8>) -> (r: Result<
        ExecSession,
        String,
    >)
        ensures
            r matches Ok(s) ==> {
                &&& s.wf()
                &&& s.spec_next() == 0
                &&& s.spec_data() == input@
                &&& spec_resolve(registry.spec_tools(), plan@.tasks, 0) == Some(s.spec_stages())
            },
            r matches Err(m) ==> {
                &&& spec_resolve(registry.spec_tools(), plan@.tasks, 0) is None
                &&& spec_first_unknown(registry.spec_tools(), plan@.tasks, 0) matches Some(cmd)
                    && m@ == "unknown tool in plan: "@ + cmd
            },
    {
        let ghost tools = registry.spec_tools();
        let ghost tasks = plan@.tasks;
        let mut stages: Vec<ResolvedStage> = Vec::new();
        let mut k: usize = 0;
        while k < plan.tasks.len()
            invariant
                k <= plan.tasks@.len(),
                tools == registry.spec_tools(),
                tasks == plan@.tasks,
                tasks.len() == plan.tasks@.len(),
                forall|m: int| 0 <= m < tasks.len() ==> tasks[m] == (#[trigger] plan.tasks@[m])@,
                spec_first_unknown(tools, tasks, k as int) is None ==> spec_first_unknown(
                    tools,
                    tasks,
                    0,
                ) is None,
                spec_first_unknown(tools, tasks, k as int) matches Some(c)
                    ==> spec_first_unknown(tools, tasks, 0) == Some(c),
                spec_resolve(tools, tasks, 0) == (match spec_resolve(tools, tasks, k as int) {
                    Some(rest) => Some(stages_view(stages@) + rest),
                    None => None::<Seq<ResolvedStageV>>,
                }),
            decreases plan.tasks@.len() - k,
        {
            let ghost before = stages_view(stages@);
            let task = &plan.tasks[k];
            match registry.find_by_id(task.command.as_str()) {
                Some(tool) => {
                    let stage = ResolvedStage {
                        command: tool.command.clone(),
                        args: clone_strings(&task.args),
                        ok_exit_codes: clone_codes(&tool.ok_exit_codes),
                    };
                    let ghost sv = stage@;
                    proof {
                        assert(sv =~~= ResolvedStageV {
                            command: tool@.command,
                            args: tasks[k as int].args,
                            ok_exit_codes: tool@.ok_exit_codes,
                        });
                    }
                    stages.push(stage);
                },
                None => {
                    let mut m = "unknown tool in plan: ".to_owned();
                    m.append(task.command.as_str());
                    return Err(m);
                },
            }
            k = k + 1;
            proof {
                let now = stages_view(stages@);
                assert(now =~= before.push(stages@.last()@));
                match spec_resolve(tools, tasks, k as int) {
                    Some(rest) => {
                        assert(before + (seq![stages@.last()@] + rest) =~= now + rest);
                    },
                    None => {
                    },
                }
            }
        }
        proof {
            assert(spec_resolve(tools, tasks, k as int) == Some(Seq::<ResolvedStageV>::empty()));
            assert(stages_view(stages@) + Seq::<ResolvedStageV>::empty() =~= stages_view(
                stages@,
            ));
        }
        Ok(ExecSession { stages, next: 0, data: input })
    }

    /// Whether every stage has run.
    pub fn finished(&self) -> (r: bool)
        requires
            self.wf(),
        ensures
            r == (self.spec_next() == self.spec_stages().len()),
    {
        self.next >= self.stages.len()
    }

    /// The stage to run next.
    pub fn current_stage(&self) -> (r: Option<&ResolvedStage>)
        ensures
            self.spec_next() < self.spec_stages().len() ==> (r matches Some(s) && s@
                == self.spec_stages()[self.spec_next()]),
            self.spec_next() >= self.spec_stages().len() ==> r is None,
    {
        if self.next < self.stages.len() {
            Some(&self.stages[self.next])
        } else {
            None
        }
    }

    /// The bytes to feed the next stage, or the final output.
    pub fn data(&self) -> (r: &Vec<u8>)
        ensures
            r@ == self.spec_data(),
    {
        &self.data
    }

    /// Judges one finished stage: a policy success advances the pipeline
    /// with the stage's output as the new buffer; a failure halts the whole
    /// run, reporting that stage's status and its trimmed diagnostics, and no
    /// later stage can run.
    pub fn on_stage_output(
        &mut self,
        exit_code: Option<i32>,
        success_flag: bool,
        stdout: Vec<u8>,
        stderr: &str,
    ) -> (r: Result<(), String>)
        requires
            old(self).wf(),
            old(self).spec_next() < old(self).spec_stages().len(),
        ensures
            final(self).wf(),
            final(self).spec_stages() == old(self).spec_stages(),
            r is Ok <==> spec_exit_ok(
                old(self).spec_stages()[old(self).spec_next()].ok_exit_codes,
                match exit_code {
                    Some(c) => Some(c as int),
                    None => None,
                },
                success_flag,
            ),
            r is Ok ==> final(self).spec_next() == old(self).spec_next() + 1
                && final(self).spec_data() == stdout@,
            r matches Err(m) ==> final(self).spec_next() == old(self).spec_next()
                && final(self).spec_data() == old(self).spec_data()
                && m@ == spec_stage_failure_msg(
                old(self).spec_stages()[old(self).spec_next()].command,
                match exit_code {
                    Some(c) => Some(c as int),
                    None => None,
                },
                stderr@,
            ),
    {
        let stage_ok: bool;
        match exit_code {
            Some(c) => {
                let ghost codes = self.stages@[self.next as int]@.ok_exit_codes;
                let codes_vec = &self.stages[self.next].ok_exit_codes;
                let mut found = false;
                let mut k: usize = 0;
                while k < codes_vec.len()
                    invariant
                        k <= codes_vec@.len(),
                        codes == Seq::new(codes_vec@.len(), |m: int| codes_vec@[m] as int),
                        found == (exists|m: int| 0 <= m < k && codes[m] == c as int),
                    decreases codes_vec@.len() - k,
                {
                    proof {
                        assert(codes[k as int] == codes_vec@[k as int] as int);
                    }
                    if codes_vec[k] == c {
                        found = true;
                    }
                    k = k + 1;
                }
                stage_ok = found;
            },
            None => {
                stage_ok = success_flag;
            },
        }
        if stage_ok {
            let nstages = self.stages.len();
            proof {
                assert(self.next < nstages);
            }
            self.data = stdout;
            self.next = self.next + 1;
            Ok(())
        } else {
            let stage = &self.stages[self.next];
            let mut m = "command '".to_owned();
            m.append(stage.command.as_str());
            m.append("' failed with status ");
            match exit_code {
                Some(c) => {
                    m.append(i64_text(c as i64).as_str());
                },
                None => {
                    m.append("signal");
                },
            }
            m.append(": ");
            let trimmed = {
                let sv = str_chars(stderr);
                let tv = crate::plan_parse::trim_chars(&sv);
                crate::text::chars_string(&tv)
            };
            m.append(trimmed.as_str());
            Err(m)
        }
    }

    /// The final buffer, once every stage has run; for an empty plan this is
    /// the untouched input.
    pub fn into_output(self) -> (r: Vec<u8>)
        requires
            self.spec_next() == self.spec_stages().len(),
        ensures
            r@ == self.spec_data(),
    {
        let ExecSession { stages: _, next: _, data } = self;
        data
    }
}

/// The decimal text of a signed number.
fn i64_text(x: i64) -> (r: String)
    ensures
        r@ == spec_print_int(x as int),
{
    let mag: u64 = if x < 0 {
        if x == i64::MIN {
            9223372036854775808u64
        } else {
            (-x) as u64
        }
    } else {
        x as u64
    };
    if x < 0 {
        let mut s = "-".to_owned();
        s.append(crate::text::u64_dec_string(mag).as_str());
        proof {
            reveal_strlit("-");
            assert(s@ =~= seq!['-'] + crate::text::spec_dec(mag as nat));
        }
        s
    } else {
        crate::text::u64_dec_string(mag)
    }
}

/// Copies a vector of strings.
fn clone_strings(v: &Vec<String>) -> (r: Vec<String>)
    ensures
        Seq::new(r@.len(), |k: int| r@[k]@) =~= Seq::new(v@.len(), |k: int| v@[k]@),
{
    let mut out: Vec<String> = Vec::new();
    let mut k: usize = 0;
    while k < v.len()
        invariant
            k <= v@.len(),
            out@.len() == k,
            forall|m: int| 0 <= m < k ==> (#[trigger] out@[m])@ == v@[m]@,
        decreases v@.len() - k,
    {
        out.push(v[k].clone());
        k = k + 1;
    }
    out
}

/// Copies a vector of exit codes.
fn clone_codes(v: &Vec<i32>) -> (r: Vec<i32>)
    ensures
        r@ == v@,
{
    let mut out: Vec<i32> = Vec::new();
    let mut k: usize = 0;
    while k < v.len()
        invariant
            k <= v@.len(),
            out@ == v@.subrange(0, k as int),
        decreases v@.len() - k,
    {
        out.push(v[k]);
        k = k + 1;
        proof {
            assert(out@ =~= v@.subrange(0, k as int));
        }
    }
    proof {
        assert(out@ =~= v@);
    }
    out
}

} // verus!
