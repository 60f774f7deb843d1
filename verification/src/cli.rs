//! Command-line grammar: global flags, then one command with its
//! subcommand and options. Reading the process arguments and printing help
//! belong to the caller; everything here is a pure function of the tokens.

use vstd::prelude::*;

use crate::text::{eq_ignore_ascii, spec_lower_seq, str_eq_str};

verus! {

/// A top-level command.
#[derive(Debug, Clone)]
pub enum Command {
    Repl,
    Plan(PlanCommand),
    Action(ActionCommand),
    Ops(OpsCommand),
}

/// A plan-buffer subcommand.
#[derive(Debug, Clone)]
pub enum PlanCommand {
    New,
    Add { instruction: String },
    Validate,
    Preview,
    Submit { json: bool },
    List { json: bool },
    Get { plan_id: String },
}

/// An action subcommand.
#[derive(Debug, Clone)]
pub enum ActionCommand {
    Submit { plan_id: String, input: Option<String>, inputs_file: Option<String>, json: bool },
}

/// An operations listing command.
#[derive(Debug, Clone)]
pub enum OpsCommand {
    Jobs { json: bool },
    Workers { json: bool },
    Queue { json: bool },
}

/// The model of a top-level command.
pub ghost enum CommandV {
    Repl,
    PlanNew,
    PlanAdd(Seq<char>),
    PlanValidate,
    PlanPreview,
    PlanSubmit(bool),
    PlanList(bool),
    PlanGet(Seq<char>),
    ActionSubmit(Seq<char>, Option<Seq<char>>, Option<Seq<char>>, bool),
    OpsJobs(bool),
    OpsWorkers(bool),
    OpsQueue(bool),
}

/// The model of `c`.
pub open spec fn command_view(c: Command) -> CommandV {
    match c {
        Command::Repl => CommandV::Repl,
        Command::Plan(p) => match p {
            PlanCommand::New => CommandV::PlanNew,
            PlanCommand::Add { instruction } => CommandV::PlanAdd(instruction@),
            PlanCommand::Validate => CommandV::PlanValidate,
            PlanCommand::Preview => CommandV::PlanPreview,
            PlanCommand::Submit { json } => CommandV::PlanSubmit(json),
            PlanCommand::List { json } => CommandV::PlanList(json),
            PlanCommand::Get { plan_id } => CommandV::PlanGet(plan_id@),
        },
        Command::Action(a) => match a {
            ActionCommand::Submit { plan_id, input, inputs_file, json } => CommandV::ActionSubmit(
                plan_id@,
                crate::plan::opt_string_view(input),
                crate::plan::opt_string_view(inputs_file),
                json,
            ),
        },
        Command::Ops(o) => match o {
            OpsCommand::Jobs { json } => CommandV::OpsJobs(json),
            OpsCommand::Workers { json } => CommandV::OpsWorkers(json),
            OpsCommand::Queue { json } => CommandV::OpsQueue(json),
        },
    }
}

/// The configuration the command line denotes.
#[derive(Debug)]
pub struct CliConfig {
    pub command: Option<Command>,
    pub show_help: bool,
    pub show_version: bool,
    pub debug: bool,
}

/// Tokens joined by single spaces.
pub open spec fn spec_join_space(toks: Seq<Seq<char>>) -> Seq<char>
    decreases toks.len(),
{
    if toks.len() == 0 {
        Seq::empty()
    } else if toks.len() == 1 {
        toks[0]
    } else {
        spec_join_space(toks.drop_last()) + seq![' '] + toks.last()
    }
}

/// Joins tokens with single spaces.
fn join_space(toks: &Vec<String>, from: usize) -> (r: String)
    requires
        from <= toks@.len(),
    ensures
        r@ == spec_join_space(Seq::new((toks@.len() - from) as nat, |k: int| toks@[from + k]@)),
{
    let ghost parts = Seq::new((toks@.len() - from) as nat, |k: int| toks@[from + k]@);
    let mut out = String::new();
    let mut k = from;
    while k < toks.len()
        invariant
            from <= k <= toks@.len(),
            parts == Seq::new((toks@.len() - from) as nat, |m: int| toks@[from + m]@),
            out@ == spec_join_space(parts.subrange(0, k - from)),
        decreases toks@.len() - k,
    {
        let ghost pre = parts.subrange(0, k - from);
        let ghost cur = parts.subrange(0, k - from + 1);
        if k > from {
            out.append(" ");
        }
        out.append(toks[k].as_str());
        k = k + 1;
        proof {
            reveal_strlit(" ");
            assert(cur.drop_last() =~= pre);
            assert(cur.last() == parts[k - from - 1]);
            if k - from == 1 {
                assert(spec_join_space(cur) == cur[0]);
                assert(out@ =~= spec_join_space(cur));
            } else {
                assert(out@ =~= spec_join_space(cur));
            }
        }
    }
    proof {
        assert(parts.subrange(0, parts.len() as int) =~= parts);
    }
    out
}

/// The accepted plan subcommands: `new`, `validate`, `preview` and their
/// strictness about extra tokens; `submit` and `list` with any run of
/// `--json` flags; `add` gathering the instruction; `get` taking exactly one
/// identifier. Subcommand words are compared without regard to ASCII case.
pub open spec fn spec_parse_plan(toks: Seq<Seq<char>>) -> Option<CommandV> {
    if toks.len() == 0 {
        None
    } else {
        let sub = spec_lower_seq(toks[0]);
        if sub == "new"@ {
            if toks.len() == 1 {
                Some(CommandV::PlanNew)
            } else {
                None
            }
        } else if sub == "validate"@ {
            if toks.len() == 1 {
                Some(CommandV::PlanValidate)
            } else {
                None
            }
        } else if sub == "preview"@ {
            if toks.len() == 1 {
                Some(CommandV::PlanPreview)
            } else {
                None
            }
        } else if sub == "submit"@ {
            if forall|k: int| 1 <= k < toks.len() ==> #[trigger] toks[k] == "--json"@ {
                Some(CommandV::PlanSubmit(toks.len() > 1))
            } else {
                None
            }
        } else if sub == "list"@ {
            if forall|k: int| 1 <= k < toks.len() ==> #[trigger] toks[k] == "--json"@ {
                Some(CommandV::PlanList(toks.len() > 1))
            } else {
                None
            }
        } else if sub == "add"@ {
            if toks.len() >= 2 {
                Some(CommandV::PlanAdd(spec_join_space(toks.subrange(1, toks.len() as int))))
            } else {
                None
            }
        } else if sub == "get"@ {
            if toks.len() == 2 {
                Some(CommandV::PlanGet(toks[1]))
            } else {
                None
            }
        } else {
            None
        }
    }
}

/// The result of scanning `ACTION submit` options from position `i` with the
/// options gathered so far: later occurrences of a flag overwrite earlier
/// ones, a flag missing its value or an unknown token refuses the line.
pub open spec fn spec_scan_action(
    toks: Seq<Seq<char>>,
    i: int,
    plan_id: Option<Seq<char>>,
    input: Option<Seq<char>>,
    inputs_file: Option<Seq<char>>,
    json: bool,
) -> Option<(Option<Seq<char>>, Option<Seq<char>>, Option<Seq<char>>, bool)>
    decreases toks.len() - i,
{
    if !(0 <= i < toks.len()) {
        Some((plan_id, input, inputs_file, json))
    } else if toks[i] == "--plan-id"@ {
        if i + 1 < toks.len() {
            spec_scan_action(toks, i + 2, Some(toks[i + 1]), input, inputs_file, json)
        } else {
            None
        }
    } else if toks[i] == "--input"@ {
        if i + 1 < toks.len() {
            spec_scan_action(toks, i + 2, plan_id, Some(toks[i + 1]), inputs_file, json)
        } else {
            None
        }
    } else if toks[i] == "--inputs-file"@ {
        if i + 1 < toks.len() {
            spec_scan_action(toks, i + 2, plan_id, input, Some(toks[i + 1]), json)
        } else {
            None
        }
    } else if toks[i] == "--json"@ {
        spec_scan_action(toks, i + 1, plan_id, input, inputs_file, true)
    } else {
        None
    }
}

/// The accepted action subcommand: `submit` with its options; `--plan-id` is
/// required and non-empty, and `--input` and `--inputs-file` exclude each
/// other.
pub open spec fn spec_parse_action(toks: Seq<Seq<char>>) -> Option<CommandV> {
    if toks.len() == 0 {
        None
    } else if spec_lower_seq(toks[0]) != "submit"@ {
        None
    } else {
        match spec_scan_action(toks, 1, None, None, None, false) {
            Some((plan_id, input, inputs_file, json)) => {
                if input is Some && inputs_file is Some {
                    None
                } else {
                    match plan_id {
                        Some(p) => if p.len() > 0 {
                            Some(CommandV::ActionSubmit(p, input, inputs_file, json))
                        } else {
                            None
                        },
                        None => None,
                    }
                }
            },
            None => None,
        }
    }
}

/// Whether `--json` occurs among the tokens after the first.
pub open spec fn spec_has_json(toks: Seq<Seq<char>>) -> bool {
    exists|k: int| 1 <= k < toks.len() && toks[k] == "--json"@
}

/// The first token after position 0 that is not `--json`, or nothing.
pub open spec fn spec_first_sub(toks: Seq<Seq<char>>, i: int) -> Option<Seq<char>>
    decreases toks.len() - i,
{
    if !(0 <= i < toks.len()) {
        None
    } else if toks[i] == "--json"@ {
        spec_first_sub(toks, i + 1)
    } else {
        Some(toks[i])
    }
}

/// The accepted operations commands: `JOBS list`, `WORKERS list`,
/// `QUEUE stats`, each with an optional `--json` anywhere after the word;
/// tokens after the subcommand are ignored.
pub open spec fn spec_parse_ops(toks: Seq<Seq<char>>) -> Option<CommandV> {
    if toks.len() == 0 {
        None
    } else {
        let main = spec_lower_seq(toks[0]);
        let json = spec_has_json(toks);
        let sub = spec_first_sub(toks, 1);
        if main == "jobs"@ {
            match sub {
                Some(s) => if spec_lower_seq(s) == "list"@ {
                    Some(CommandV::OpsJobs(json))
                } else {
                    None
                },
                None => None,
            }
        } else if main == "workers"@ {
            match sub {
                Some(s) => if spec_lower_seq(s) == "list"@ {
                    Some(CommandV::OpsWorkers(json))
                } else {
                    None
                },
                None => None,
            }
        } else if main == "queue"@ {
            match sub {
                Some(s) => if spec_lower_seq(s) == "stats"@ {
                    Some(CommandV::OpsQueue(json))
                } else {
                    None
                },
                None => None,
            }
        } else {
            None
        }
    }
}

/// The accepted commands: `PLAN`, `ACTION` and the operations words, without
/// regard to ASCII case.
pub open spec fn spec_parse_command(toks: Seq<Seq<char>>) -> Option<CommandV> {
    if toks.len() == 0 {
        None
    } else {
        let kind = spec_lower_seq(toks[0]);
        if kind == "plan"@ {
            spec_parse_plan(toks.subrange(1, toks.len() as int))
        } else if kind == "action"@ {
            spec_parse_action(toks.subrange(1, toks.len() as int))
        } else if kind == "jobs"@ || kind == "workers"@ || kind == "queue"@ {
            spec_parse_ops(toks)
        } else {
            None
        }
    }
}

/// The token views of `toks[from..]`.
pub open spec fn spec_token_views(toks: Seq<String>, from: int) -> Seq<Seq<char>> {
    Seq::new((toks.len() - from) as nat, |k: int| toks[from + k]@)
}

/// Reads a plan subcommand from `toks[from..]`.
pub(crate) fn parse_plan_command(toks: &Vec<String>, from: usize) -> (r: Result<Command, String>)
    requires
        from <= toks@.len(),
    ensures
        r matches Ok(c) ==> spec_parse_plan(spec_token_views(toks@, from as int)) == Some(
            command_view(c),
        ),
        (r is Err) == (spec_parse_plan(spec_token_views(toks@, from as int)) is None),
{
    let ghost tv = spec_token_views(toks@, from as int);
    if from >= toks.len() {
        return Err(
            ("PLAN requires a subcommand (new, add, validate, preview, submit).").to_owned(),
        );
    }
    proof {
        reveal_strlit("new");
        reveal_strlit("validate");
        reveal_strlit("preview");
        reveal_strlit("submit");
        reveal_strlit("list");
        reveal_strlit("add");
        reveal_strlit("get");
        assert(spec_lower_seq("new"@) =~= "new"@);
        assert(spec_lower_seq("validate"@) =~= "validate"@);
        assert(spec_lower_seq("preview"@) =~= "preview"@);
        assert(spec_lower_seq("submit"@) =~= "submit"@);
        assert(spec_lower_seq("list"@) =~= "list"@);
        assert(spec_lower_seq("add"@) =~= "add"@);
        assert(spec_lower_seq("get"@) =~= "get"@);
    }
    let sub = &toks[from];
    if eq_ignore_ascii(sub.as_str(), "new") {
        if toks.len() - from > 1 {
            let mut m = "unexpected argument after `PLAN new`: ".to_owned();
            m.append(toks[from + 1].as_str());
            return Err(m);
        }
        Ok(Command::Plan(PlanCommand::New))
    } else if eq_ignore_ascii(sub.as_str(), "validate") {
        if toks.len() - from > 1 {
            let mut m = "unexpected argument after `PLAN validate`: ".to_owned();
            m.append(toks[from + 1].as_str());
            return Err(m);
        }
        Ok(Command::Plan(PlanCommand::Validate))
    } else if eq_ignore_ascii(sub.as_str(), "preview") {
        if toks.len() - from > 1 {
            let mut m = "unexpected argument after `PLAN preview`: ".to_owned();
            m.append(toks[from + 1].as_str());
            return Err(m);
        }
        Ok(Command::Plan(PlanCommand::Preview))
    } else if eq_ignore_ascii(sub.as_str(), "submit") {
        let mut k = from + 1;
        while k < toks.len()
            invariant
                from + 1 <= k,
                k <= toks@.len(),
                from < toks@.len(),
                tv == spec_token_views(toks@, from as int),
                spec_lower_seq(tv[0]) == "submit"@,
                spec_lower_seq("submit"@) == "submit"@,
                forall|m: int| 1 <= m < k - from ==> #[trigger] tv[m] == "--json"@,
            decreases toks@.len() - k,
        {
            if !str_eq_str(toks[k].as_str(), "--json") {
                proof {
                    reveal_strlit("--json");
                    reveal_strlit("submit");
                    reveal_strlit("new");
                    reveal_strlit("validate");
                    reveal_strlit("preview");
                    assert(spec_lower_seq("new"@) =~= "new"@);
                    assert(spec_lower_seq("validate"@) =~= "validate"@);
                    assert(spec_lower_seq("preview"@) =~= "preview"@);
                    assert(tv[k - from] != "--json"@);
                    assert(tv[0] != ""@ || true);
                    assert(spec_parse_plan(tv) is None);
                }
                let mut m = "unexpected argument after `PLAN submit`: ".to_owned();
                m.append(toks[k].as_str());
                return Err(m);
            }
            proof {
                reveal_strlit("--json");
            }
            k = k + 1;
        }
        Ok(Command::Plan(PlanCommand::Submit { json: toks.len() - from > 1 }))
    } else if eq_ignore_ascii(sub.as_str(), "list") {
        let mut k = from + 1;
        while k < toks.len()
            invariant
                from + 1 <= k,
                k <= toks@.len(),
                from < toks@.len(),
                tv == spec_token_views(toks@, from as int),
                spec_lower_seq(tv[0]) == "list"@,
                spec_lower_seq("list"@) == "list"@,
                forall|m: int| 1 <= m < k - from ==> #[trigger] tv[m] == "--json"@,
            decreases toks@.len() - k,
        {
            if !str_eq_str(toks[k].as_str(), "--json") {
                proof {
                    reveal_strlit("--json");
                    reveal_strlit("list");
                    reveal_strlit("submit");
                    reveal_strlit("new");
                    reveal_strlit("validate");
                    reveal_strlit("preview");
                    assert(spec_lower_seq("new"@) =~= "new"@);
                    assert(spec_lower_seq("validate"@) =~= "validate"@);
                    assert(spec_lower_seq("preview"@) =~= "preview"@);
                    assert(spec_lower_seq("submit"@) =~= "submit"@);
                    assert(tv[k - from] != "--json"@);
                    assert(spec_parse_plan(tv) is None);
                }
                let mut m = "unexpected argument after `PLAN list`: ".to_owned();
                m.append(toks[k].as_str());
                return Err(m);
            }
            proof {
                reveal_strlit("--json");
            }
            k = k + 1;
        }
        Ok(Command::Plan(PlanCommand::List { json: toks.len() - from > 1 }))
    } else if eq_ignore_ascii(sub.as_str(), "add") {
        if toks.len() - from < 2 {
            return Err("PLAN add requires an instruction string.".to_owned());
        }
        let instruction = join_space(toks, from + 1);
        proof {
            assert(Seq::new(
                (toks@.len() - (from + 1)) as nat,
                |k: int| toks@[from + 1 + k]@,
            ) =~= tv.subrange(1, tv.len() as int));
        }
        Ok(Command::Plan(PlanCommand::Add { instruction }))
    } else if eq_ignore_ascii(sub.as_str(), "get") {
        if toks.len() - from < 2 {
            return Err("PLAN get requires a plan-id.".to_owned());
        }
        if toks.len() - from > 2 {
            let mut m = "unexpected argument after `PLAN get <plan-id>`: ".to_owned();
            m.append(toks[from + 2].as_str());
            return Err(m);
        }
        Ok(Command::Plan(PlanCommand::Get { plan_id: toks[from + 1].clone() }))
    } else {
        let mut m = "unknown PLAN subcommand: ".to_owned();
        m.append(sub.as_str());
        m.append(". Expected new/add/validate/preview/submit/list/get.");
        Err(m)
    }
}

/// Reads an action subcommand from `toks[from..]`.
pub(crate) fn parse_action_command(toks: &Vec<String>, from: usize) -> (r: Result<
    Command,
    String,
>)
    requires
        from <= toks@.len(),
    ensures
        r matches Ok(c) ==> spec_parse_action(spec_token_views(toks@, from as int)) == Some(
            command_view(c),
        ),
        (r is Err) == (spec_parse_action(spec_token_views(toks@, from as int)) is None),
{
    let ghost tv = spec_token_views(toks@, from as int);
    if from >= toks.len() {
        return Err("ACTION requires a subcommand (submit).".to_owned());
    }
    proof {
        reveal_strlit("submit");
        assert(spec_lower_seq("submit"@) =~= "submit"@);
    }
    if !eq_ignore_ascii(toks[from].as_str(), "submit") {
        let mut m = "unknown ACTION subcommand: ".to_owned();
        m.append(toks[from].as_str());
        m.append(". Expected submit.");
        return Err(m);
    }
    let mut plan_id: Option<String> = None;
    let mut input: Option<String> = None;
    let mut inputs_file: Option<String> = None;
    let mut json = false;
    let mut k = from + 1;
    while k < toks.len()
        invariant
            from + 1 <= k,
            k <= toks@.len(),
            from < toks@.len(),
            tv == spec_token_views(toks@, from as int),
            spec_scan_action(
                tv,
                1,
                None,
                None,
                None,
                false,
            ) == spec_scan_action(
                tv,
                k - from,
                crate::plan::opt_string_view(plan_id),
                crate::plan::opt_string_view(input),
                crate::plan::opt_string_view(inputs_file),
                json,
            ),
        decreases toks@.len() - k,
    {
        proof {
            reveal_strlit("--plan-id");
            reveal_strlit("--input");
            reveal_strlit("--inputs-file");
            reveal_strlit("--json");
        }
        if str_eq_str(toks[k].as_str(), "--plan-id") {
            if k + 1 >= toks.len() {
                return Err("--plan-id requires a value".to_owned());
            }
            plan_id = Some(toks[k + 1].clone());
            k = k + 2;
        } else if str_eq_str(toks[k].as_str(), "--input") {
            if k + 1 >= toks.len() {
                return Err("--input requires a JSON value".to_owned());
            }
            input = Some(toks[k + 1].clone());
            k = k + 2;
        } else if str_eq_str(toks[k].as_str(), "--inputs-file") {
            if k + 1 >= toks.len() {
                return Err("--inputs-file requires a path".to_owned());
            }
            inputs_file = Some(toks[k + 1].clone());
            k = k + 2;
        } else if str_eq_str(toks[k].as_str(), "--json") {
            json = true;
            k = k + 1;
        } else {
            let mut m = "unexpected argument: ".to_owned();
            m.append(toks[k].as_str());
            return Err(m);
        }
    }
    if input.is_some() && inputs_file.is_some() {
        return Err("cannot specify both --input and --inputs-file".to_owned());
    }
    let plan_id = match plan_id {
        Some(p) => p,
        None => {
            return Err("ACTION submit requires --plan-id. See `agx --help`.".to_owned());
        },
    };
    if plan_id.as_str().unicode_len() == 0 {
        return Err("--plan-id cannot be empty".to_owned());
    }
    Ok(Command::Action(ActionCommand::Submit { plan_id, input, inputs_file, json }))
}

/// Reads an operations command from `toks[from..]` (the command word itself
/// included).
pub(crate) fn parse_ops_command(toks: &Vec<String>, from: usize) -> (r: Result<Command, String>)
    requires
        from <= toks@.len(),
    ensures
        r matches Ok(c) ==> spec_parse_ops(spec_token_views(toks@, from as int)) == Some(
            command_view(c),
        ),
        (r is Err) == (spec_parse_ops(spec_token_views(toks@, from as int)) is None),
{
    let ghost tv = spec_token_views(toks@, from as int);
    if from >= toks.len() {
        return Err("an Ops command is required (JOBS/WORKERS/QUEUE).".to_owned());
    }
    // find whether --json occurs, and the first other token after the word
    let mut json = false;
    let mut sub: Option<usize> = None;
    let mut k = from + 1;
    while k < toks.len()
        invariant
            from + 1 <= k,
            k <= toks@.len(),
            from < toks@.len(),
            tv == spec_token_views(toks@, from as int),
            json == spec_has_json_upto(tv, k - from),
            match sub {
                Some(s) => from < s < toks@.len() && spec_first_sub(tv, 1) == Some(
                    toks@[s as int]@,
                ) && s < k,
                None => spec_first_sub(tv, 1) == spec_first_sub(tv, k - from),
            },
        decreases toks@.len() - k,
    {
        proof {
            reveal_strlit("--json");
        }
        if str_eq_str(toks[k].as_str(), "--json") {
            json = true;
        } else {
            if sub.is_none() {
                sub = Some(k);
            }
        }
        k = k + 1;
    }
    proof {
        lemma_has_json_complete(tv, k - from);
        reveal_strlit("jobs");
        reveal_strlit("workers");
        reveal_strlit("queue");
        reveal_strlit("list");
        reveal_strlit("stats");
        assert(spec_lower_seq("jobs"@) =~= "jobs"@);
        assert(spec_lower_seq("workers"@) =~= "workers"@);
        assert(spec_lower_seq("queue"@) =~= "queue"@);
        assert(spec_lower_seq("list"@) =~= "list"@);
        assert(spec_lower_seq("stats"@) =~= "stats"@);
    }
    let main = &toks[from];
    let is_jobs = eq_ignore_ascii(main.as_str(), "jobs");
    let is_workers = eq_ignore_ascii(main.as_str(), "workers");
    let is_queue = eq_ignore_ascii(main.as_str(), "queue");
    if is_jobs || is_workers {
        let ok = match sub {
            Some(s) => eq_ignore_ascii(toks[s].as_str(), "list"),
            None => false,
        };
        if ok {
            if is_jobs {
                Ok(Command::Ops(OpsCommand::Jobs { json }))
            } else {
                Ok(Command::Ops(OpsCommand::Workers { json }))
            }
        } else {
            if is_jobs {
                Err("JOBS requires subcommand: list".to_owned())
            } else {
                Err("WORKERS requires subcommand: list".to_owned())
            }
        }
    } else if is_queue {
        let ok = match sub {
            Some(s) => eq_ignore_ascii(toks[s].as_str(), "stats"),
            None => false,
        };
        if ok {
            Ok(Command::Ops(OpsCommand::Queue { json }))
        } else {
            Err("QUEUE requires subcommand: stats".to_owned())
        }
    } else {
        let mut m = "unknown Ops command: ".to_owned();
        m.append(main.as_str());
        Err(m)
    }
}

/// Whether `--json` occurs among tokens 1 (inclusive) to `upto` (exclusive).
pub open spec fn spec_has_json_upto(toks: Seq<Seq<char>>, upto: int) -> bool {
    exists|k: int| 1 <= k < upto && k < toks.len() && toks[k] == "--json"@
}

/// Past the end, the bounded search equals the full one.
proof fn lemma_has_json_complete(toks: Seq<Seq<char>>, upto: int)
    requires
        upto >= toks.len(),
    ensures
        spec_has_json_upto(toks, upto) == spec_has_json(toks),
{
}

/// Reads one command from `toks[from..]`: `PLAN`, `ACTION`, or an operations
/// word, case-insensitively.
pub(crate) fn parse_command(toks: &Vec<String>, from: usize) -> (r: Result<Command, String>)
    requires
        from <= toks@.len(),
    ensures
        r matches Ok(c) ==> spec_parse_command(spec_token_views(toks@, from as int)) == Some(
            command_view(c),
        ),
        (r is Err) == (spec_parse_command(spec_token_views(toks@, from as int)) is None),
{
    let ghost tv = spec_token_views(toks@, from as int);
    if from >= toks.len() {
        return Err("a command is required after parsing options.".to_owned());
    }
    let kind = &toks[from];
    proof {
        assert(tv.subrange(1, tv.len() as int) =~= spec_token_views(toks@, from + 1));
        reveal_strlit("plan");
        reveal_strlit("action");
        reveal_strlit("jobs");
        reveal_strlit("workers");
        reveal_strlit("queue");
        assert(spec_lower_seq("plan"@) =~= "plan"@);
        assert(spec_lower_seq("action"@) =~= "action"@);
        assert(spec_lower_seq("jobs"@) =~= "jobs"@);
        assert(spec_lower_seq("workers"@) =~= "workers"@);
        assert(spec_lower_seq("queue"@) =~= "queue"@);
    }
    if eq_ignore_ascii(kind.as_str(), "plan") {
        parse_plan_command(toks, from + 1)
    } else if eq_ignore_ascii(kind.as_str(), "action") {
        parse_action_command(toks, from + 1)
    } else if eq_ignore_ascii(kind.as_str(), "jobs") || eq_ignore_ascii(kind.as_str(), "workers")
        || eq_ignore_ascii(kind.as_str(), "queue") {
        parse_ops_command(toks, from)
    } else {
        let mut m = "unknown command: ".to_owned();
        m.append(kind.as_str());
        m.append(". Run `agx --help` for usage.");
        Err(m)
    }
}

/// Whether `t` is a global option.
pub open spec fn spec_is_flag_tok(t: Seq<char>) -> bool {
    t == "--help"@ || t == "-h"@ || t == "--version"@ || t == "-v"@ || t == "--debug"@ || t
        == "-d"@
}

/// The index of the first token that is not a global option, or the end.
pub open spec fn spec_cmd_start(args: Seq<Seq<char>>, i: int) -> int
    decreases args.len() - i,
{
    if 0 <= i < args.len() {
        if spec_is_flag_tok(args[i]) {
            spec_cmd_start(args, i + 1)
        } else {
            i
        }
    } else {
        i
    }
}

/// Whether a version flag stands among the first `upto` tokens.
pub open spec fn spec_version_flag(args: Seq<Seq<char>>, upto: int) -> bool {
    exists|k: int| 0 <= k < upto && k < args.len() && (args[k] == "--version"@ || args[k] == "-v"@)
}

/// Whether a help flag stands among the first `upto` tokens.
pub open spec fn spec_help_flag(args: Seq<Seq<char>>, upto: int) -> bool {
    exists|k: int| 0 <= k < upto && k < args.len() && (args[k] == "--help"@ || args[k] == "-h"@)
}

/// Whether a debug flag stands among the first `upto` tokens.
pub open spec fn spec_debug_flag(args: Seq<Seq<char>>, upto: int) -> bool {
    exists|k: int| 0 <= k < upto && k < args.len() && (args[k] == "--debug"@ || args[k] == "-d"@)
}

impl CliConfig {
    /// Reads the command line: global options first, then everything from the
    /// first other token parses as one command. With no command, the line
    /// means the interactive session unless help or the version was asked
    /// for.
    pub fn from_args(args: Vec<String>) -> (r: Result<CliConfig, String>)
        ensures
            ({
                let av = Seq::new(args@.len(), |k: int| args@[k]@);
                let start = spec_cmd_start(av, 0);
                &&& (r matches Ok(cfg) ==> {
                    &&& cfg.show_version == spec_version_flag(av, start)
                    &&& cfg.show_help == (spec_help_flag(av, start) || spec_version_flag(
                        av,
                        start,
                    ))
                    &&& cfg.debug == spec_debug_flag(av, start)
                    &&& (start == av.len() ==> (cfg.command is Some <==> !(spec_help_flag(
                        av,
                        start,
                    ) || spec_version_flag(av, start))) && (cfg.command matches Some(c)
                        ==> command_view(c) == CommandV::Repl))
                    &&& (start < av.len() ==> (cfg.command matches Some(c) && spec_parse_command(
                        av.subrange(start, av.len() as int),
                    ) == Some(command_view(c))))
                })
                &&& ((r is Err) == (start < av.len() && spec_parse_command(
                    av.subrange(start, av.len() as int),
                ) is None))
            }),
    {
        let ghost av = Seq::new(args@.len(), |k: int| args@[k]@);
        let mut show_help = false;
        let mut show_version = false;
        let mut debug = false;
        let mut k: usize = 0;
        while k < args.len() && is_flag_tok(&args[k])
            invariant
                k <= args@.len(),
                av == Seq::new(args@.len(), |m: int| args@[m]@),
                spec_cmd_start(av, 0) == spec_cmd_start(av, k as int),
                forall|m: int| 0 <= m < k ==> spec_is_flag_tok(#[trigger] av[m]),
                show_version == spec_version_flag(av, k as int),
                show_help == (spec_help_flag(av, k as int) || spec_version_flag(av, k as int)),
                debug == spec_debug_flag(av, k as int),
            decreases args@.len() - k,
        {
            proof {
                reveal_strlit("--help");
                reveal_strlit("-h");
                reveal_strlit("--version");
                reveal_strlit("-v");
                reveal_strlit("--debug");
                reveal_strlit("-d");
                assert(av[k as int] == args@[k as int]@);
            }
            let t = &args[k];
            let is_help = str_eq_str(t.as_str(), "--help") || str_eq_str(t.as_str(), "-h");
            let is_version = str_eq_str(t.as_str(), "--version") || str_eq_str(t.as_str(), "-v");
            let is_debug = str_eq_str(t.as_str(), "--debug") || str_eq_str(t.as_str(), "-d");
            if is_help {
                show_help = true;
            } else if is_version {
                show_version = true;
                show_help = true;
            } else {
                debug = true;
            }
            proof {
                assert(is_help || is_version || is_debug);
                assert("--help"@.len() == 6 && "-h"@.len() == 2 && "--version"@.len() == 9
                    && "-v"@.len() == 2 && "--debug"@.len() == 7 && "-d"@.len() == 2);
                assert("-h"@[1] == 'h' && "-v"@[1] == 'v' && "-d"@[1] == 'd');
                assert(!(is_help && is_version));
                assert(!(is_help && is_debug));
                assert(!(is_version && is_debug));
                assert(spec_version_flag(av, k + 1) == (spec_version_flag(av, k as int)
                    || is_version));
                assert(spec_help_flag(av, k + 1) == (spec_help_flag(av, k as int) || is_help));
                assert(spec_debug_flag(av, k + 1) == (spec_debug_flag(av, k as int) || (!is_help
                    && !is_version)));
            }
            k = k + 1;
        }
        proof {
            assert(spec_cmd_start(av, k as int) == k);
        }
        if k >= args.len() {
            let command = if !show_help && !show_version {
                Some(Command::Repl)
            } else {
                None
            };
            return Ok(CliConfig { command, show_help, show_version, debug });
        }
        proof {
            assert(av.subrange(k as int, av.len() as int) =~= spec_token_views(args@, k as int));
        }
        match parse_command(&args, k) {
            Ok(c) => Ok(CliConfig { command: Some(c), show_help, show_version, debug }),
            Err(m) => Err(m),
        }
    }
}

/// Whether `t` is a global option.
fn is_flag_tok(t: &String) -> (r: bool)
    ensures
        r == spec_is_flag_tok(t@),
{
    proof {
        reveal_strlit("--help");
        reveal_strlit("-h");
        reveal_strlit("--version");
        reveal_strlit("-v");
        reveal_strlit("--debug");
        reveal_strlit("-d");
    }
    str_eq_str(t.as_str(), "--help") || str_eq_str(t.as_str(), "-h") || str_eq_str(
        t.as_str(),
        "--version",
    ) || str_eq_str(t.as_str(), "-v") || str_eq_str(t.as_str(), "--debug") || str_eq_str(
        t.as_str(),
        "-d",
    )
}

/// The ceiling on an instruction's size in bytes.
pub const MAX_INSTRUCTION_BYTES: usize = 8192;

/// Refuses an over-long instruction before it reaches the planner.
pub fn enforce_instruction_limit(command: &PlanCommand) -> (r: Result<(), String>)
    ensures
        r is Ok <==> (command matches PlanCommand::Add { instruction } ==> (
        vstd::utf8::encode_utf8(instruction@).len() as usize) <= 8192),
{
    match command {
        PlanCommand::Add { instruction } => {
            let len = instruction.as_str().len();
            if len > MAX_INSTRUCTION_BYTES {
                let mut m = "instruction is too long (".to_owned();
                m.append(crate::text::u64_dec_string(len as u64).as_str());
                m.append(" bytes > ");
                m.append(crate::text::u64_dec_string(MAX_INSTRUCTION_BYTES as u64).as_str());
                m.append(" allowed)");
                Err(m)
            } else {
                Ok(())
            }
        },
        _ => Ok(()),
    }
}

/// Whether the path begins at the filesystem root.
pub open spec fn spec_path_absolute(s: Seq<char>) -> bool {
    s.len() > 0 && s[0] == '/'
}

/// Whether some `/`-delimited piece of the path is exactly `..`.
pub open spec fn spec_path_has_parent_ref(s: Seq<char>) -> bool {
    exists|i: int|
        0 <= i && i + 2 <= s.len() && #[trigger] s[i] == '.' && s[i + 1] == '.' && (i == 0 || s[i
            - 1] == '/') && (i + 2 == s.len() || s[i + 2] == '/')
}

/// Refuses an inputs-file path that could escape the working directory: no
/// absolute path, no `..` component. Whether the file is a symbolic link can
/// only be seen by the filesystem and is checked by the caller there.
pub fn validate_file_path(path: &str) -> (r: Result<(), String>)
    ensures
        r is Ok <==> (!spec_path_absolute(path@) && !spec_path_has_parent_ref(path@)),
        r matches Err(m) ==> (if spec_path_absolute(path@) {
            m@ == "absolute paths not allowed for --inputs-file"@
        } else {
            m@ == "parent directory references (..) not allowed in --inputs-file"@
        }),
{
    let n = path.unicode_len();
    if n > 0 && path.get_char(0) == '/' {
        return Err("absolute paths not allowed for --inputs-file".to_owned());
    }
    let mut i: usize = 0;
    while i < n
        invariant
            i <= n,
            n == path@.len(),
            !spec_path_absolute(path@),
            forall|m: int|
                0 <= m < i ==> !(m + 2 <= path@.len() && #[trigger] path@[m] == '.' && path@[m + 1]
                    == '.' && (m == 0 || path@[m - 1] == '/') && (m + 2 == path@.len() || path@[m
                    + 2] == '/')),
        decreases n - i,
    {
        let piece_start = i == 0 || path.get_char(i - 1) == '/';
        if piece_start && n - i >= 2 && path.get_char(i) == '.' && path.get_char(i + 1) == '.' && (
        n - i == 2 || path.get_char(i + 2) == '/') {
            return Err(
                ("parent directory references (..) not allowed in --inputs-file").to_owned(),
            );
        }
        i = i + 1;
    }
    Ok(())
}

} // verus!
