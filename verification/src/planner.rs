//! What the library knows about the planner collaborator: the configuration
//! and context types, the prompt a backend hands the model, and the reading
//! of whatever text comes back. Running a model — a subprocess, local
//! inference — belongs to the caller behind this boundary.

use vstd::prelude::*;

use crate::plan::{plan_steps_view, PlanStep, WorkflowPlan};
use crate::plan_parse::spec_from_str;

verus! {

/// Which model a planner invocation plays: the fast drafting role or the
/// thorough validation role.
#[derive(Debug, Clone, Copy, PartialEq, Eq, Structural)]
pub enum ModelRole {
    Echo,
    Delta,
}

/// Which backend produces plan text.
#[derive(Debug, Clone, Copy, PartialEq, Eq, Structural)]
pub enum BackendKind {
    Ollama,
    Candle,
}

/// The planner's configuration: the backend, and an optional role override
/// for validation runs.
#[derive(Debug, Clone)]
pub struct PlannerConfig {
    pub backend: BackendKind,
    pub model_role_override: Option<ModelRole>,
}

/// A tool the prompt offers the model.
#[derive(Debug, Clone)]
pub struct ToolInfo {
    pub name: String,
    pub description: String,
}

impl ToolInfo {
    /// A named tool with its one-line description.
    pub fn new(name: &str, description: &str) -> (r: ToolInfo)
        ensures
            r.name@ == name@,
            r.description@ == description@,
    {
        ToolInfo { name: name.to_owned(), description: description.to_owned() }
    }
}

/// What the model is given besides the instruction.
#[derive(Debug, Clone)]
pub struct PlanContext {
    pub tool_registry: Vec<ToolInfo>,
    pub input_summary: Option<String>,
    pub existing_tasks: Vec<PlanStep>,
    pub max_tasks: usize,
}

impl Default for PlanContext {
    /// An empty context bounded at twenty tasks.
    fn default() -> (r: Self)
        ensures
            r.tool_registry@.len() == 0,
            r.input_summary is None,
            r.existing_tasks@.len() == 0,
            r.max_tasks == 20,
    {
        PlanContext {
            tool_registry: Vec::new(),
            input_summary: None,
            existing_tasks: Vec::new(),
            max_tasks: 20,
        }
    }
}

/// A generated plan with its provenance.
#[derive(Debug, Clone)]
pub struct GeneratedPlan {
    pub tasks: Vec<PlanStep>,
    pub metadata: PlanMetadata,
}

/// Where a generated plan came from and what it cost.
#[derive(Debug, Clone)]
pub struct PlanMetadata {
    pub model_used: String,
    pub tokens: Option<usize>,
    pub latency_ms: u64,
    pub backend: String,
}

/// The raw text a planner invocation produced.
#[derive(Debug, Clone)]
pub struct PlannerOutput {
    pub raw_json: String,
}

impl PlannerOutput {
    /// Reads the raw text as a plan, through the full recovery cascade.
    pub fn parse(&self) -> (r: Result<WorkflowPlan, String>)
        ensures
            r matches Ok(p) ==> spec_from_str(self.raw_json@) == Some(p@),
            (r is Err) == (spec_from_str(self.raw_json@) is None),
    {
        match WorkflowPlan::from_str(self.raw_json.as_str()) {
            Ok(p) => Ok(p),
            Err(e) => {
                let mut m = "failed to parse planner JSON: ".to_owned();
                m.append(e.describe().as_str());
                Err(m)
            },
        }
    }
}

/// The tool lines of a prompt: `name: description`, one per line.
pub open spec fn spec_prompt_tools(tools: Seq<(Seq<char>, Seq<char>)>) -> Seq<char>
    decreases tools.len(),
{
    if tools.len() == 0 {
        Seq::empty()
    } else if tools.len() == 1 {
        tools[0].0 + ": "@ + tools[0].1
    } else {
        spec_prompt_tools(tools.drop_last()) + "\n"@ + tools.last().0 + ": "@ + tools.last().1
    }
}

/// The models of the prompt's tools.
pub open spec fn tool_infos_view(ts: Seq<ToolInfo>) -> Seq<(Seq<char>, Seq<char>)> {
    Seq::new(ts.len(), |k: int| (ts[k].name@, ts[k].description@))
}

/// The drafting prompt: the instruction, the input description when one is
/// there, the tools, and the exact output shape asked of the model.
pub open spec fn spec_build_prompt(instruction: Seq<char>, context_tools: Seq<(Seq<char>, Seq<char>)>, input_summary: Option<Seq<char>>) -> Seq<char> {
    "You are the AGX Planner.\n\nUser instruction:\n"@ + instruction + "\n\n"@ + (
    match input_summary {
        Some(s) => "Input description:\n"@ + s + "\n\n"@,
        None => Seq::empty(),
    }) + "Available tools:\n"@ + spec_prompt_tools(context_tools)
        + "\n\nRespond with a single JSON object only, no extra commentary.\nUse this exact format:\n{\"tasks\": [{\"task_number\": 1, \"command\": \"tool-id\", \"args\": [], \"timeout_secs\": 300}]}\n\n- task_number: 1-based, contiguous (1, 2, 3...)\n- command: tool identifier from list above\n- args: arguments for the command (empty array if none)\n- timeout_secs: timeout in seconds (default 300)\n\nUse only the tools listed above and produce a deterministic, minimal plan."@
}

/// The subprocess-backed planner: it renders the prompt and reads the reply;
/// the caller runs the model command itself.
#[derive(Debug, Clone)]
pub struct OllamaConfig {
    pub model: String,
}

/// The prompt-and-parse half of the subprocess backend.
#[derive(Debug, Clone)]
pub struct OllamaBackend {
    pub model: String,
}

impl OllamaBackend {
    /// A backend for the named model.
    pub fn new(model: String) -> (r: OllamaBackend)
        ensures
            r.model@ == model@,
    {
        OllamaBackend { model }
    }

    /// A backend from a configuration.
    pub fn from_config(config: OllamaConfig) -> (r: OllamaBackend)
        ensures
            r.model@ == config.model@,
    {
        OllamaBackend::new(config.model)
    }

    /// Renders the drafting prompt for an instruction and its context.
    pub fn build_prompt(&self, instruction: &str, context: &PlanContext) -> (r: String)
        ensures
            r@ == spec_build_prompt(
                instruction@,
                tool_infos_view(context.tool_registry@),
                crate::plan::opt_string_view(context.input_summary),
            ),
    {
        let mut out = "You are the AGX Planner.\n\nUser instruction:\n".to_owned();
        out.append(instruction);
        out.append("\n\n");
        match &context.input_summary {
            Some(s) => {
                out.append("Input description:\n");
                out.append(s.as_str());
                out.append("\n\n");
            },
            None => {
            },
        }
        out.append("Available tools:\n");
        let ghost ts = tool_infos_view(context.tool_registry@);
        let ghost mid = out@;
        let mut k: usize = 0;
        while k < context.tool_registry.len()
            invariant
                k <= context.tool_registry@.len(),
                ts == tool_infos_view(context.tool_registry@),
                ts.len() == context.tool_registry@.len(),
                forall|m: int|
                    0 <= m < ts.len() ==> ts[m] == ((#[trigger] context.tool_registry@[m]).name@,
                        context.tool_registry@[m].description@),
                out@ == mid + spec_prompt_tools(ts.subrange(0, k as int)),
            decreases context.tool_registry@.len() - k,
        {
            let ghost pre = ts.subrange(0, k as int);
            let ghost cur = ts.subrange(0, k + 1);
            if k > 0 {
                out.append("\n");
            }
            out.append(context.tool_registry[k].name.as_str());
            out.append(": ");
            out.append(context.tool_registry[k].description.as_str());
            k = k + 1;
            proof {
                reveal_strlit("\n");
                reveal_strlit(": ");
                assert(cur.drop_last() =~= pre);
                assert(cur.last() == ts[k - 1]);
                if k == 1 {
                    assert(spec_prompt_tools(cur) == cur[0].0 + ": "@ + cur[0].1);
                    assert(out@ =~= mid + spec_prompt_tools(cur));
                } else {
                    assert(out@ =~= mid + spec_prompt_tools(cur));
                }
            }
        }
        proof {
            assert(ts.subrange(0, ts.len() as int) =~= ts);
        }
        out.append(
            "\n\nRespond with a single JSON object only, no extra commentary.\nUse this exact format:\n{\"tasks\": [{\"task_number\": 1, \"command\": \"tool-id\", \"args\": [], \"timeout_secs\": 300}]}\n\n- task_number: 1-based, contiguous (1, 2, 3...)\n- command: tool identifier from list above\n- args: arguments for the command (empty array if none)\n- timeout_secs: timeout in seconds (default 300)\n\nUse only the tools listed above and produce a deterministic, minimal plan.",
        );
        out
    }

    /// Reads a model reply as the tasks of a plan, through the full recovery
    /// cascade.
    pub fn parse_plan_response(&self, response: &str) -> (r: Result<Vec<PlanStep>, String>)
        ensures
            r matches Ok(tasks) ==> (spec_from_str(response@) matches Some(p) && plan_steps_view(
                tasks@,
            ) == p.tasks),
            (r is Err) == (spec_from_str(response@) is None),
    {
        match WorkflowPlan::from_str(response) {
            Ok(p) => Ok(p.tasks),
            Err(e) => {
                let mut m = "Failed to parse plan JSON: ".to_owned();
                m.append(e.describe().as_str());
                Err(m)
            },
        }
    }
}

} // verus!
