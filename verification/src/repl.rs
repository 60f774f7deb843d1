//! The interactive session's command grammar and persisted state. Reading
//! lines, history files and the screen belong to the caller; parsing a line
//! and bounding the persisted history are pure.

use vstd::prelude::*;

use crate::plan::WorkflowPlan;
use crate::plan_parse::spec_trim;
use crate::text::{eq_ignore_ascii, spec_lower_seq, str_chars, chars_string, spec_is_digit,
    spec_all_digits, spec_dec_val, dec_chars_val};

verus! {

/// One command of the interactive session.
#[derive(Debug, Clone, PartialEq)]
pub enum ReplCommand {
    Add(String),
    Preview,
    Edit(usize),
    Remove(usize),
    Clear,
    Validate,
    Submit,
    Save,
    PlanList,
    PlanGet(String),
    ActionSubmit { plan_id: String, input: Option<String> },
    JobList,
    WorkerList,
    QueueStats,
    Help,
    Quit,
}

/// The model of a session command.
pub ghost enum ReplCommandV {
    Add(Seq<char>),
    Preview,
    Edit(int),
    Remove(int),
    Clear,
    Validate,
    Submit,
    Save,
    PlanList,
    PlanGet(Seq<char>),
    ActionSubmit(Seq<char>, Option<Seq<char>>),
    JobList,
    WorkerList,
    QueueStats,
    Help,
    Quit,
}

/// The model of `c`.
pub open spec fn repl_command_view(c: ReplCommand) -> ReplCommandV {
    match c {
        ReplCommand::Add(s) => ReplCommandV::Add(s@),
        ReplCommand::Preview => ReplCommandV::Preview,
        ReplCommand::Edit(n) => ReplCommandV::Edit(n as int),
        ReplCommand::Remove(n) => ReplCommandV::Remove(n as int),
        ReplCommand::Clear => ReplCommandV::Clear,
        ReplCommand::Validate => ReplCommandV::Validate,
        ReplCommand::Submit => ReplCommandV::Submit,
        ReplCommand::Save => ReplCommandV::Save,
        ReplCommand::PlanList => ReplCommandV::PlanList,
        ReplCommand::PlanGet(s) => ReplCommandV::PlanGet(s@),
        ReplCommand::ActionSubmit { plan_id, input } => ReplCommandV::ActionSubmit(
            plan_id@,
            crate::plan::opt_string_view(input),
        ),
        ReplCommand::JobList => ReplCommandV::JobList,
        ReplCommand::WorkerList => ReplCommandV::WorkerList,
        ReplCommand::QueueStats => ReplCommandV::QueueStats,
        ReplCommand::Help => ReplCommandV::Help,
        ReplCommand::Quit => ReplCommandV::Quit,
    }
}

/// The index of the first space at or after `i`, or the end of `s`.
pub open spec fn spec_first_space(s: Seq<char>, i: int) -> int
    decreases s.len() - i,
{
    if 0 <= i < s.len() {
        if s[i] == ' ' {
            i
        } else {
            spec_first_space(s, i + 1)
        }
    } else {
        i
    }
}

/// The value a decimal token denotes, as `usize::from_str` reads it: an
/// optional leading `+`, then at least one digit, within `usize` range.
pub open spec fn spec_parse_usize(s: Seq<char>) -> Option<int> {
    let d0: int = if s.len() > 0 && s[0] == '+' {
        1
    } else {
        0
    };
    let digits = s.subrange(d0, s.len() as int);
    if digits.len() == 0 {
        None
    } else if !spec_all_digits(digits) {
        None
    } else if spec_dec_val(digits) > usize::MAX {
        None
    } else {
        Some(spec_dec_val(digits) as int)
    }
}

/// The word and remainder of a trimmed line: the text before the first
/// space, and everything after it (or nothing, with no space).
pub open spec fn spec_split2(t: Seq<char>) -> (Seq<char>, Option<Seq<char>>) {
    let sp = spec_first_space(t, 0);
    if sp >= t.len() {
        (t, None)
    } else {
        (t.subrange(0, sp), Some(t.subrange(sp + 1, t.len() as int)))
    }
}

/// The command a session line denotes, or nothing for a line the session
/// refuses: words match case-insensitively, with one-letter shorthands;
/// `add` wants a non-empty instruction; `edit` and `remove` want a step
/// number from one; `plan` wants `list` or `get <id>`; `action` wants a plan
/// identifier and an optional inline input.
pub open spec fn spec_repl_parse(line: Seq<char>) -> Option<ReplCommandV> {
    let t = spec_trim(line);
    if t.len() == 0 {
        None
    } else {
        let (word, rest) = spec_split2(t);
        let cmd = spec_lower_seq(word);
        if cmd == "add"@ || cmd == "a"@ {
            match rest {
                Some(r) => if spec_trim(r).len() > 0 {
                    Some(ReplCommandV::Add(spec_trim(r)))
                } else {
                    None
                },
                None => None,
            }
        } else if cmd == "preview"@ || cmd == "show"@ || cmd == "list"@ || cmd == "p"@ {
            Some(ReplCommandV::Preview)
        } else if cmd == "edit"@ || cmd == "e"@ {
            match rest {
                Some(r) => match spec_parse_usize(spec_trim(r)) {
                    Some(n) => if n == 0 {
                        None
                    } else {
                        Some(ReplCommandV::Edit(n))
                    },
                    None => None,
                },
                None => None,
            }
        } else if cmd == "remove"@ || cmd == "delete"@ || cmd == "rm"@ || cmd == "r"@ {
            match rest {
                Some(r) => match spec_parse_usize(spec_trim(r)) {
                    Some(n) => if n == 0 {
                        None
                    } else {
                        Some(ReplCommandV::Remove(n))
                    },
                    None => None,
                },
                None => None,
            }
        } else if cmd == "clear"@ || cmd == "reset"@ || cmd == "new"@ || cmd == "c"@ {
            Some(ReplCommandV::Clear)
        } else if cmd == "validate"@ || cmd == "v"@ {
            Some(ReplCommandV::Validate)
        } else if cmd == "submit"@ || cmd == "s"@ {
            Some(ReplCommandV::Submit)
        } else if cmd == "save"@ {
            Some(ReplCommandV::Save)
        } else if cmd == "plan"@ {
            match rest {
                Some(r) => {
                    let rt = spec_trim(r);
                    if rt.len() == 0 {
                        None
                    } else {
                        let (sub, sub_rest) = spec_split2(rt);
                        if sub == "list"@ {
                            Some(ReplCommandV::PlanList)
                        } else if sub == "get"@ {
                            match sub_rest {
                                Some(sr) => if spec_trim(sr).len() > 0 {
                                    Some(ReplCommandV::PlanGet(spec_trim(sr)))
                                } else {
                                    None
                                },
                                None => None,
                            }
                        } else {
                            None
                        }
                    }
                },
                None => None,
            }
        } else if cmd == "action"@ {
            match rest {
                Some(r) => {
                    let rt = spec_trim(r);
                    if rt.len() == 0 {
                        None
                    } else {
                        let (pid, input) = spec_split2(rt);
                        Some(ReplCommandV::ActionSubmit(pid, input))
                    }
                },
                None => None,
            }
        } else if cmd == "jobs"@ || cmd == "j"@ {
            Some(ReplCommandV::JobList)
        } else if cmd == "workers"@ || cmd == "w"@ {
            Some(ReplCommandV::WorkerList)
        } else if cmd == "stats"@ || cmd == "queue"@ {
            Some(ReplCommandV::QueueStats)
        } else if cmd == "help"@ || cmd == "?"@ || cmd == "h"@ {
            Some(ReplCommandV::Help)
        } else if cmd == "quit"@ || cmd == "exit"@ || cmd == "q"@ {
            Some(ReplCommandV::Quit)
        } else {
            None
        }
    }
}

/// Trims a character vector.
fn trim_vec(v: &Vec<char>) -> (r: Vec<char>)
    ensures
        r@ == spec_trim(v@),
{
    crate::plan_parse::trim_chars(v)
}

/// Splits a vector at the first space: the word before it, and the
/// remainder after it, if a space occurs.
fn split2(t: &Vec<char>) -> (r: (Vec<char>, Option<Vec<char>>))
    ensures
        ({
            let (word, rest) = spec_split2(t@);
            &&& r.0@ == word
            &&& (match r.1 {
                Some(x) => rest == Some(x@),
                None => rest is None,
            })
        }),
{
    let n = t.len();
    let mut sp: usize = 0;
    while sp < n && t[sp] != ' '
        invariant
            sp <= n,
            n == t@.len(),
            spec_first_space(t@, 0) == spec_first_space(t@, sp as int),
        decreases n - sp,
    {
        sp = sp + 1;
    }
    proof {
        assert(spec_first_space(t@, 0) == sp);
    }
    let mut word: Vec<char> = Vec::new();
    let mut k: usize = 0;
    while k < sp
        invariant
            k <= sp <= n,
            n == t@.len(),
            word@ == t@.subrange(0, k as int),
        decreases sp - k,
    {
        word.push(t[k]);
        k = k + 1;
        proof {
            assert(word@ =~= t@.subrange(0, k as int));
        }
    }
    if sp >= n {
        proof {
            assert(t@.subrange(0, n as int) =~= t@);
        }
        (word, None)
    } else {
        let mut rest: Vec<char> = Vec::new();
        let mut k = sp + 1;
        while k < n
            invariant
                sp + 1 <= k <= n,
                n == t@.len(),
                rest@ == t@.subrange(sp + 1, k as int),
            decreases n - k,
        {
            rest.push(t[k]);
            k = k + 1;
            proof {
                assert(rest@ =~= t@.subrange(sp + 1, k as int));
            }
        }
        (word, Some(rest))
    }
}

/// Reads the step number a token denotes.
fn parse_usize_chars(t: &Vec<char>) -> (r: Option<usize>)
    ensures
        match r {
            Some(n) => spec_parse_usize(t@) == Some(n as int),
            None => spec_parse_usize(t@) is None,
        },
{
    let n = t.len();
    let d0: usize = if n > 0 && t[0] == '+' {
        1
    } else {
        0
    };
    proof {
        assert(t@.subrange(d0 as int, n as int) == t@.subrange(d0 as int, t@.len() as int));
    }
    if d0 == n {
        return None;
    }
    let ghost digits = t@.subrange(d0 as int, n as int);
    let mut k = d0;
    while k < n
        invariant
            d0 <= k <= n,
            d0 < n,
            n == t@.len(),
            d0 as int == (if t@.len() > 0 && t@[0] == '+' {
                1int
            } else {
                0int
            }),
            digits == t@.subrange(d0 as int, n as int),
            forall|m: int| d0 <= m < k ==> spec_is_digit(#[trigger] t@[m]),
        decreases n - k,
    {
        if !crate::text::is_digit_char(t[k]) {
            proof {
                assert(digits[k - d0] == t@[k as int]);
                assert(!spec_all_digits(digits));
            }
            return None;
        }
        k = k + 1;
    }
    proof {
        assert(spec_all_digits(digits));
    }
    match dec_chars_val(t, d0, n) {
        Some(v) => {
            if v <= usize::MAX as u64 {
                Some(v as usize)
            } else {
                None
            }
        },
        None => {
            proof {
                assert(spec_dec_val(digits) > u64::MAX >= usize::MAX);
            }
            None
        },
    }
}

impl ReplCommand {
    /// Reads one session line: the leading word, case-insensitively and with
    /// its shorthands, then the word's own argument shape. The account of a
    /// refused line names what was missing.
    pub fn parse(line: &str) -> (r: Result<ReplCommand, String>)
        ensures
            r matches Ok(c) ==> spec_repl_parse(line@) == Some(repl_command_view(c)),
            (r is Err) == (spec_repl_parse(line@) is None),
    {
        let ghost lv = line@;
        let raw = str_chars(line);
        let t = trim_vec(&raw);
        if t.len() == 0 {
            return Err("empty command".to_owned());
        }
        let (word_vec, rest_vec) = split2(&t);
        let word = chars_string(&word_vec);
        proof {
            reveal_strlit("add");
            reveal_strlit("a");
            reveal_strlit("preview");
            reveal_strlit("show");
            reveal_strlit("list");
            reveal_strlit("p");
            reveal_strlit("edit");
            reveal_strlit("e");
            reveal_strlit("remove");
            reveal_strlit("delete");
            reveal_strlit("rm");
            reveal_strlit("r");
            reveal_strlit("clear");
            reveal_strlit("reset");
            reveal_strlit("new");
            reveal_strlit("c");
            reveal_strlit("validate");
            reveal_strlit("v");
            reveal_strlit("submit");
            reveal_strlit("s");
            reveal_strlit("save");
            reveal_strlit("plan");
            reveal_strlit("action");
            reveal_strlit("jobs");
            reveal_strlit("j");
            reveal_strlit("workers");
            reveal_strlit("w");
            reveal_strlit("stats");
            reveal_strlit("queue");
            reveal_strlit("help");
            reveal_strlit("?");
            reveal_strlit("h");
            reveal_strlit("quit");
            reveal_strlit("exit");
            reveal_strlit("q");
            reveal_strlit("get");
            assert(spec_lower_seq("add"@) =~= "add"@);
            assert(spec_lower_seq("a"@) =~= "a"@);
            assert(spec_lower_seq("preview"@) =~= "preview"@);
            assert(spec_lower_seq("show"@) =~= "show"@);
            assert(spec_lower_seq("list"@) =~= "list"@);
            assert(spec_lower_seq("p"@) =~= "p"@);
            assert(spec_lower_seq("edit"@) =~= "edit"@);
            assert(spec_lower_seq("e"@) =~= "e"@);
            assert(spec_lower_seq("remove"@) =~= "remove"@);
            assert(spec_lower_seq("delete"@) =~= "delete"@);
            assert(spec_lower_seq("rm"@) =~= "rm"@);
            assert(spec_lower_seq("r"@) =~= "r"@);
            assert(spec_lower_seq("clear"@) =~= "clear"@);
            assert(spec_lower_seq("reset"@) =~= "reset"@);
            assert(spec_lower_seq("new"@) =~= "new"@);
            assert(spec_lower_seq("c"@) =~= "c"@);
            assert(spec_lower_seq("validate"@) =~= "validate"@);
            assert(spec_lower_seq("v"@) =~= "v"@);
            assert(spec_lower_seq("submit"@) =~= "submit"@);
            assert(spec_lower_seq("s"@) =~= "s"@);
            assert(spec_lower_seq("save"@) =~= "save"@);
            assert(spec_lower_seq("plan"@) =~= "plan"@);
            assert(spec_lower_seq("action"@) =~= "action"@);
            assert(spec_lower_seq("jobs"@) =~= "jobs"@);
            assert(spec_lower_seq("j"@) =~= "j"@);
            assert(spec_lower_seq("workers"@) =~= "workers"@);
            assert(spec_lower_seq("w"@) =~= "w"@);
            assert(spec_lower_seq("stats"@) =~= "stats"@);
            assert(spec_lower_seq("queue"@) =~= "queue"@);
            assert(spec_lower_seq("help"@) =~= "help"@);
            assert(spec_lower_seq("?"@) =~= "?"@);
            assert(spec_lower_seq("h"@) =~= "h"@);
            assert(spec_lower_seq("quit"@) =~= "quit"@);
            assert(spec_lower_seq("exit"@) =~= "exit"@);
            assert(spec_lower_seq("q"@) =~= "q"@);
            assert(spec_lower_seq("get"@) =~= "get"@);
        }
        if eq_ignore_ascii(word.as_str(), "add") || eq_ignore_ascii(word.as_str(), "a") {
            let rest = match rest_vec {
                Some(r) => r,
                None => {
                    return Err("add requires an instruction".to_owned());
                },
            };
            let instr = trim_vec(&rest);
            if instr.len() == 0 {
                return Err("add requires a non-empty instruction".to_owned());
            }
            Ok(ReplCommand::Add(chars_string(&instr)))
        } else if eq_ignore_ascii(word.as_str(), "preview") || eq_ignore_ascii(
            word.as_str(),
            "show",
        ) || eq_ignore_ascii(word.as_str(), "list") || eq_ignore_ascii(word.as_str(), "p") {
            Ok(ReplCommand::Preview)
        } else if eq_ignore_ascii(word.as_str(), "edit") || eq_ignore_ascii(word.as_str(), "e") {
            let rest = match rest_vec {
                Some(r) => r,
                None => {
                    return Err("edit requires a step number".to_owned());
                },
            };
            let tok = trim_vec(&rest);
            match parse_usize_chars(&tok) {
                Some(n) => {
                    if n == 0 {
                        Err("step numbers start at 1".to_owned())
                    } else {
                        Ok(ReplCommand::Edit(n))
                    }
                },
                None => {
                    let mut m = "invalid step number: ".to_owned();
                    m.append(chars_string(&tok).as_str());
                    Err(m)
                },
            }
        } else if eq_ignore_ascii(word.as_str(), "remove") || eq_ignore_ascii(
            word.as_str(),
            "delete",
        ) || eq_ignore_ascii(word.as_str(), "rm") || eq_ignore_ascii(word.as_str(), "r") {
            let rest = match rest_vec {
                Some(r) => r,
                None => {
                    return Err("remove requires a step number".to_owned());
                },
            };
            let tok = trim_vec(&rest);
            match parse_usize_chars(&tok) {
                Some(n) => {
                    if n == 0 {
                        Err("step numbers start at 1".to_owned())
                    } else {
                        Ok(ReplCommand::Remove(n))
                    }
                },
                None => {
                    let mut m = "invalid step number: ".to_owned();
                    m.append(chars_string(&tok).as_str());
                    Err(m)
                },
            }
        } else if eq_ignore_ascii(word.as_str(), "clear") || eq_ignore_ascii(
            word.as_str(),
            "reset",
        ) || eq_ignore_ascii(word.as_str(), "new") || eq_ignore_ascii(word.as_str(), "c") {
            Ok(ReplCommand::Clear)
        } else if eq_ignore_ascii(word.as_str(), "validate") || eq_ignore_ascii(
            word.as_str(),
            "v",
        ) {
            Ok(ReplCommand::Validate)
        } else if eq_ignore_ascii(word.as_str(), "submit") || eq_ignore_ascii(word.as_str(), "s") {
            Ok(ReplCommand::Submit)
        } else if eq_ignore_ascii(word.as_str(), "save") {
            Ok(ReplCommand::Save)
        } else if eq_ignore_ascii(word.as_str(), "plan") {
            let rest = match rest_vec {
                Some(r) => r,
                None => {
                    return Err("plan requires subcommand: list, get <id>".to_owned());
                },
            };
            let rt = trim_vec(&rest);
            if rt.len() == 0 {
                return Err("plan requires subcommand: list, get <id>".to_owned());
            }
            let (sub_vec, sub_rest) = split2(&rt);
            let sub = chars_string(&sub_vec);
            if str_eq(&sub, "list") {
                Ok(ReplCommand::PlanList)
            } else if str_eq(&sub, "get") {
                let sr = match sub_rest {
                    Some(x) => x,
                    None => {
                        return Err("plan get requires plan-id".to_owned());
                    },
                };
                let id = trim_vec(&sr);
                if id.len() == 0 {
                    return Err("plan get requires plan-id".to_owned());
                }
                Ok(ReplCommand::PlanGet(chars_string(&id)))
            } else {
                let mut m = "unknown plan subcommand: ".to_owned();
                m.append(sub.as_str());
                m.append(". Use: plan list, plan get <id>");
                Err(m)
            }
        } else if eq_ignore_ascii(word.as_str(), "action") {
            let rest = match rest_vec {
                Some(r) => r,
                None => {
                    return Err("action requires plan-id".to_owned());
                },
            };
            let rt = trim_vec(&rest);
            if rt.len() == 0 {
                return Err("action requires plan-id".to_owned());
            }
            let (pid_vec, input_vec) = split2(&rt);
            let plan_id = chars_string(&pid_vec);
            let input = match input_vec {
                Some(x) => Some(chars_string(&x)),
                None => None,
            };
            Ok(ReplCommand::ActionSubmit { plan_id, input })
        } else if eq_ignore_ascii(word.as_str(), "jobs") || eq_ignore_ascii(word.as_str(), "j") {
            Ok(ReplCommand::JobList)
        } else if eq_ignore_ascii(word.as_str(), "workers") || eq_ignore_ascii(
            word.as_str(),
            "w",
        ) {
            Ok(ReplCommand::WorkerList)
        } else if eq_ignore_ascii(word.as_str(), "stats") || eq_ignore_ascii(
            word.as_str(),
            "queue",
        ) {
            Ok(ReplCommand::QueueStats)
        } else if eq_ignore_ascii(word.as_str(), "help") || eq_ignore_ascii(word.as_str(), "?")
            || eq_ignore_ascii(word.as_str(), "h") {
            Ok(ReplCommand::Help)
        } else if eq_ignore_ascii(word.as_str(), "quit") || eq_ignore_ascii(word.as_str(), "exit")
            || eq_ignore_ascii(word.as_str(), "q") {
            Ok(ReplCommand::Quit)
        } else {
            let mut m = "unknown command: ".to_owned();
            m.append(word.as_str());
            m.append(". Type 'help' for available commands");
            Err(m)
        }
    }
}

/// Whether a `String` equals a literal.
fn str_eq(a: &String, b: &str) -> (r: bool)
    ensures
        r == (a@ == b@),
{
    crate::text::str_eq_str(a.as_str(), b)
}

/// How many history lines the session keeps on disk.
pub const MAX_HISTORY_SIZE: usize = 1000;

/// The session state that survives between invocations: the plan buffer, the
/// command history, and the time of the last save.
#[derive(Debug, Clone)]
pub struct ReplState {
    pub plan: WorkflowPlan,
    pub history: Vec<String>,
    pub last_saved: Option<String>,
}

impl Default for ReplState {
    /// A fresh session: an empty plan, no history, never saved.
    fn default() -> (r: Self)
        ensures
            r.plan@.tasks.len() == 0,
            r.history@.len() == 0,
            r.last_saved is None,
    {
        ReplState { plan: WorkflowPlan::default(), history: Vec::new(), last_saved: None }
    }
}

impl ReplState {
    /// Bounds the history before a save: only the most recent entries are
    /// kept, oldest first dropped; a history already within the bound is
    /// untouched.
    pub fn trim_history(&mut self)
        ensures
            final(self).plan == old(self).plan,
            final(self).last_saved == old(self).last_saved,
            final(self).history@ == (if old(self).history@.len() > MAX_HISTORY_SIZE {
                old(self).history@.subrange(
                    old(self).history@.len() - MAX_HISTORY_SIZE,
                    old(self).history@.len() as int,
                )
            } else {
                old(self).history@
            }),
    {
        let n = self.history.len();
        if n > MAX_HISTORY_SIZE {
            let start = n - MAX_HISTORY_SIZE;
            let mut kept: Vec<String> = Vec::new();
            let mut k = start;
            while k < n
                invariant
                    start <= k <= n,
                    n == self.history@.len(),
                    self.history == old(self).history,
                    kept@ =~= self.history@.subrange(start as int, k as int),
                decreases n - k,
            {
                kept.push(self.history[k].clone());
                k = k + 1;
                proof {
                    assert(kept@ =~= self.history@.subrange(start as int, k as int));
                }
            }
            self.history = kept;
        }
    }
}

} // verus!
