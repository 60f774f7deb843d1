//! The remote-queue client's decisions: how requests are framed, how each
//! command's reply is judged, and the conduct of one call — credential first,
//! then the substantive command. Opening sockets, deadlines and the byte
//! shuttling around these decisions belong to the caller; every call is one
//! fresh connection and exactly one attempt.

use vstd::prelude::*;

use crate::json::{spec_parse_json, Json, JsonV};
use crate::json_parse::parse_json;
use crate::json_print::spec_print_int;
use crate::plan::{opt_string_view, WorkflowPlan};
use crate::plan_parse::{
    decode_canonical, decode_strings, obj_get, opt_str_field, spec_decode_canonical,
    spec_decode_strings, spec_obj_get, spec_opt_str_field,
};
use crate::resp::{resp_array, spec_encode_array, RespValue, RespValueV};
use crate::text::{u64_dec_string, spec_dec};

use vstd::utf8::encode_utf8;

verus! {

/// How to reach the remote queue: its address, an optional session
/// credential, and the per-call network deadline in seconds.
#[derive(Debug, Clone)]
pub struct AgqConfig {
    pub addr: String,
    pub session_key: Option<String>,
    pub timeout_secs: u64,
}

/// A stateless client: one configuration, one fresh exchange per call.
pub struct AgqClient {
    pub config: AgqConfig,
}

/// Why a call against the remote queue failed, short of transport trouble.
#[derive(Debug, Clone)]
pub enum ClientError {
    /// The credential was refused; carries the remote's message.
    AuthFailed(String),
    /// The reply to the credential had a shape no credential check returns.
    UnexpectedAuthReply,
    /// The remote answered a command with its explicit error; carries the
    /// message verbatim.
    Remote(String),
    /// The reply's shape does not match the command's contract.
    UnexpectedReply,
    /// A payload arrived but could not be decoded; carries an account.
    DecodeFailed(String),
    /// A decoded action receipt disagrees with itself; carries the account
    /// with both counts.
    InconsistentAction(String),
}

impl AgqClient {
    /// A client for the given configuration.
    pub fn new(config: AgqConfig) -> (r: AgqClient)
        ensures
            r.config == config,
    {
        AgqClient { config }
    }

    /// The configuration this client was built with.
    pub fn config(&self) -> (r: &AgqConfig)
        ensures
            r == self.config,
    {
        &self.config
    }
}

/// Whether `c` may stand in a plan identifier: ASCII letters, digits,
/// underscore, dash. This rule exists to keep a crafted identifier from
/// injecting wire-protocol framing.
pub open spec fn spec_id_char_ok(c: char) -> bool {
    ('a' <= c && c <= 'z') || ('A' <= c && c <= 'Z') || ('0' <= c && c <= '9') || c == '_' || c
        == '-'
}

/// Whether a plan identifier may travel on the wire: non-empty, at most 128
/// characters, all from the safe set.
pub open spec fn spec_plan_id_ok(s: Seq<char>) -> bool {
    0 < s.len() <= 128 && (forall|k: int| 0 <= k < s.len() ==> spec_id_char_ok(#[trigger] s[k]))
}

/// Checks a plan identifier before any network use: only ASCII letters,
/// digits, underscore and dash are allowed, it cannot be empty, and it cannot
/// exceed 128 characters; the first failing rule, in that order, names the
/// rejection.
pub fn validate_plan_id(plan_id: &str) -> (r: Result<(), String>)
    ensures
        r is Ok <==> spec_plan_id_ok(plan_id@),
        r matches Err(m) ==> (if !(forall|k: int|
            0 <= k < plan_id@.len() ==> spec_id_char_ok(#[trigger] plan_id@[k])) {
            m@ == "invalid plan_id: must contain only alphanumeric characters, underscore, or dash"@
        } else if plan_id@.len() == 0 {
            m@ == "plan_id cannot be empty"@
        } else {
            m@ == "plan_id too long (max 128 characters)"@
        }),
{
    let n = plan_id.unicode_len();
    let mut k: usize = 0;
    while k < n
        invariant
            k <= n,
            n == plan_id@.len(),
            forall|m: int| 0 <= m < k ==> spec_id_char_ok(#[trigger] plan_id@[m]),
        decreases n - k,
    {
        let c = plan_id.get_char(k);
        let u = c as u32;
        let ok = (97 <= u && u <= 122) || (65 <= u && u <= 90) || (48 <= u && u <= 57) || c == '_'
            || c == '-';
        if !ok {
            proof {
                assert(!spec_id_char_ok(plan_id@[k as int]));
            }
            return Err(
                (
                "invalid plan_id: must contain only alphanumeric characters, underscore, or dash").to_owned(),
            );
        }
        k = k + 1;
    }
    if n == 0 {
        return Err("plan_id cannot be empty".to_owned());
    }
    if n > 128 {
        return Err("plan_id too long (max 128 characters)".to_owned());
    }
    Ok(())
}

/// The receipt the queue returns for a submitted action.
#[derive(Debug, Clone)]
pub struct ActionEnvelope {
    pub action_id: String,
    pub plan_id: String,
    pub plan_description: Option<String>,
    pub jobs_created: usize,
    pub job_ids: Vec<String>,
}

/// The exact account of a count mismatch in an action receipt.
pub open spec fn spec_action_mismatch_msg(jobs_created: int, ids: int) -> Seq<char> {
    "ActionEnvelope validation failed: jobs_created ("@ + spec_dec(jobs_created as nat)
        + ") != job_ids.len() ("@ + spec_dec(ids as nat) + ")"@
}

impl ActionEnvelope {
    /// Requires the stated job count to match the identifiers actually
    /// returned — a defense against a silently inconsistent receipt.
    pub fn validate(&self) -> (r: Result<(), String>)
        ensures
            r is Ok <==> self.jobs_created == self.job_ids@.len(),
            r matches Err(m) ==> m@ == spec_action_mismatch_msg(
                self.jobs_created as int,
                self.job_ids@.len() as int,
            ),
    {
        if self.jobs_created != self.job_ids.len() {
            let mut s = "ActionEnvelope validation failed: jobs_created (".to_owned();
            s.append(u64_dec_string(self.jobs_created as u64).as_str());
            s.append(") != job_ids.len() (");
            s.append(u64_dec_string(self.job_ids.len() as u64).as_str());
            s.append(")");
            return Err(s);
        }
        Ok(())
    }
}

/// A successful plan submission: the opaque job identifier the queue chose.
#[derive(Debug, Clone)]
pub struct SubmissionResult {
    pub job_id: String,
}

/// A line of a queue listing.
#[derive(Debug, Clone, PartialEq)]
pub enum OpsResponse {
    Jobs(Vec<String>),
    Workers(Vec<String>),
    QueueStats(Vec<String>),
}

/// A one-line description of a stored plan.
#[derive(Debug, Clone)]
pub struct PlanSummary {
    pub plan_id: String,
    pub description: Option<String>,
    pub task_count: usize,
    pub created_at: Option<String>,
}

/// What a plan-submission reply means: a string carries the job id, an error
/// is the remote's refusal, anything else breaks the contract.
pub fn interpret_submit_reply(v: RespValue) -> (r: Result<SubmissionResult, ClientError>)
    ensures
        r matches Ok(s) ==> ((v@ matches RespValueV::SimpleString(x) && s.job_id@ == x) || (v@
            matches RespValueV::BulkString(x) && s.job_id@ == x)),
        r matches Err(ClientError::Remote(m)) ==> v@ == RespValueV::Error(m@),
        r matches Err(ClientError::UnexpectedReply) ==> !(v@ is SimpleString) && !(v@
            is BulkString) && !(v@ is Error),
        (r is Ok) == (v@ is SimpleString || v@ is BulkString),
        r matches Err(e) ==> ((e is Remote) == (v@ is Error)),
{
    match v {
        RespValue::SimpleString(s) => Ok(SubmissionResult { job_id: s }),
        RespValue::BulkString(s) => Ok(SubmissionResult { job_id: s }),
        RespValue::Error(m) => Err(ClientError::Remote(m)),
        _ => Err(ClientError::UnexpectedReply),
    }
}

/// The model of an action receipt.
#[verifier::ext_equal]
pub ghost struct ActionEnvelopeV {
    pub action_id: Seq<char>,
    pub plan_id: Seq<char>,
    pub plan_description: Option<Seq<char>>,
    pub jobs_created: int,
    pub job_ids: Seq<Seq<char>>,
}

impl View for ActionEnvelope {
    type V = ActionEnvelopeV;

    open spec fn view(&self) -> ActionEnvelopeV {
        ActionEnvelopeV {
            action_id: self.action_id@,
            plan_id: self.plan_id@,
            plan_description: opt_string_view(self.plan_description),
            jobs_created: self.jobs_created as int,
            job_ids: Seq::new(self.job_ids@.len(), |k: int| self.job_ids@[k]@),
        }
    }
}

/// A whole number that fits a `usize`.
pub open spec fn spec_as_usize(j: JsonV) -> Option<int> {
    match j {
        JsonV::Int(n) => if 0 <= n <= usize::MAX {
            Some(n)
        } else {
            None
        },
        _ => None,
    }
}

/// An action receipt document: required `action_id`, `plan_id`,
/// `jobs_created` and `job_ids`, optional `plan_description`.
pub open spec fn spec_decode_action(j: JsonV) -> Option<ActionEnvelopeV> {
    match j {
        JsonV::Obj(fields) => {
            let aid = match spec_obj_get(fields, "action_id"@) {
                Some(JsonV::Str(s)) => Some(s),
                _ => None,
            };
            let pid = match spec_obj_get(fields, "plan_id"@) {
                Some(JsonV::Str(s)) => Some(s),
                _ => None,
            };
            let pd = spec_opt_str_field(fields, "plan_description"@);
            let jc = match spec_obj_get(fields, "jobs_created"@) {
                Some(x) => spec_as_usize(x),
                None => None,
            };
            let ids = match spec_obj_get(fields, "job_ids"@) {
                Some(JsonV::Arr(items)) => spec_decode_strings(items, 0),
                _ => None,
            };
            match (aid, pid, pd, jc, ids) {
                (Some(a), Some(p), Some(d), Some(c), Some(i)) => Some(
                    ActionEnvelopeV {
                        action_id: a,
                        plan_id: p,
                        plan_description: d,
                        jobs_created: c,
                        job_ids: i,
                    },
                ),
                _ => None,
            }
        },
        _ => None,
    }
}

/// Reads an action receipt document.
fn decode_action(j: &Json) -> (r: Option<ActionEnvelope>)
    ensures
        match r {
            Some(env) => spec_decode_action(j@) == Some(env@),
            None => spec_decode_action(j@) is None,
        },
{
    let fields = match j {
        Json::Obj(fields) => fields,
        _ => {
            return None;
        },
    };
    let action_id = match obj_get(fields, "action_id") {
        Some(Json::Str(s)) => s.clone(),
        _ => {
            return None;
        },
    };
    let plan_id = match obj_get(fields, "plan_id") {
        Some(Json::Str(s)) => s.clone(),
        _ => {
            return None;
        },
    };
    let plan_description = match opt_str_field(fields, "plan_description") {
        Some(d) => d,
        None => {
            return None;
        },
    };
    let jobs_created = match obj_get(fields, "jobs_created") {
        Some(Json::Int(n)) => {
            if 0 <= *n && *n as u64 <= usize::MAX as u64 {
                *n as usize
            } else {
                return None;
            }
        },
        _ => {
            return None;
        },
    };
    let job_ids = match obj_get(fields, "job_ids") {
        Some(Json::Arr(items)) => match decode_strings(items) {
            Some(ids) => ids,
            None => {
                return None;
            },
        },
        _ => {
            return None;
        },
    };
    let env = ActionEnvelope { action_id, plan_id, plan_description, jobs_created, job_ids };
    proof {
        assert(env@ =~~= spec_decode_action(j@)->Some_0);
    }
    Some(env)
}

/// What an action-submission reply owes: a bulk string decoding as an action
/// receipt whose stated job count matches its identifiers; a receipt that
/// decodes but disagrees with itself is rejected with the named mismatch.
pub open spec fn spec_interpret_action(v: RespValueV) -> Result<ActionEnvelopeV, ()> {
    match v {
        RespValueV::BulkString(s) => match spec_parse_json(s) {
            Some(j) => match spec_decode_action(j) {
                Some(env) => if env.jobs_created == env.job_ids.len() {
                    Ok(env)
                } else {
                    Err(())
                },
                None => Err(()),
            },
            None => Err(()),
        },
        _ => Err(()),
    }
}

/// Judges an action-submission reply: decodes the receipt and independently
/// re-checks that `jobs_created` matches the number of job identifiers,
/// rejecting a decodable but inconsistent receipt.
pub fn interpret_action_reply(v: RespValue) -> (r: Result<ActionEnvelope, ClientError>)
    ensures
        r matches Ok(env) ==> spec_interpret_action(v@) == Ok::<ActionEnvelopeV, ()>(env@),
        r is Err ==> spec_interpret_action(v@) is Err,
        r matches Err(ClientError::Remote(m)) ==> v@ == RespValueV::Error(m@),
        v@ is Error ==> (r matches Err(e) && e is Remote),
        spec_interpret_action_decoded(v@) matches Some(env) && env.jobs_created
            != env.job_ids.len() ==> (r matches Err(e) && e matches ClientError::InconsistentAction(
            m,
        ) && m@ == spec_action_mismatch_msg(
            spec_interpret_action_decoded(v@)->Some_0.jobs_created,
            spec_interpret_action_decoded(v@)->Some_0.job_ids.len() as int,
        )),
{
    match v {
        RespValue::BulkString(s) => {
            let j = match parse_json(s.as_str()) {
                Ok(j) => j,
                Err(e) => {
                    proof {
                        assert(spec_interpret_action_decoded(v@) is None);
                    }
                    return Err(ClientError::DecodeFailed(e.describe()));
                },
            };
            let env = match decode_action(&j) {
                Some(env) => env,
                None => {
                    proof {
                        assert(spec_interpret_action_decoded(v@) is None);
                    }
                    return Err(
                        ClientError::DecodeFailed(
                            "response is not an action receipt".to_owned(),
                        ),
                    );
                },
            };
            proof {
                assert(spec_interpret_action_decoded(RespValueV::BulkString(s@)) == Some(env@));
            }
            match env.validate() {
                Ok(_) => Ok(env),
                Err(m) => Err(ClientError::InconsistentAction(m)),
            }
        },
        RespValue::Error(m) => Err(ClientError::Remote(m)),
        _ => Err(ClientError::UnexpectedReply),
    }
}

/// The receipt a bulk reply decodes to, before the consistency check.
pub open spec fn spec_interpret_action_decoded(v: RespValueV) -> Option<ActionEnvelopeV> {
    match v {
        RespValueV::BulkString(s) => match spec_parse_json(s) {
            Some(j) => spec_decode_action(j),
            None => None,
        },
        _ => None,
    }
}

/// The model of a plan summary.
#[verifier::ext_equal]
pub ghost struct PlanSummaryV {
    pub plan_id: Seq<char>,
    pub description: Option<Seq<char>>,
    pub task_count: int,
    pub created_at: Option<Seq<char>>,
}

impl View for PlanSummary {
    type V = PlanSummaryV;

    open spec fn view(&self) -> PlanSummaryV {
        PlanSummaryV {
            plan_id: self.plan_id@,
            description: opt_string_view(self.description),
            task_count: self.task_count as int,
            created_at: opt_string_view(self.created_at),
        }
    }
}

/// A plan-summary document: required `plan_id` and `task_count`, optional
/// `description` and `created_at`.
pub open spec fn spec_decode_summary(j: JsonV) -> Option<PlanSummaryV> {
    match j {
        JsonV::Obj(fields) => {
            let pid = match spec_obj_get(fields, "plan_id"@) {
                Some(JsonV::Str(s)) => Some(s),
                _ => None,
            };
            let desc = spec_opt_str_field(fields, "description"@);
            let tc = match spec_obj_get(fields, "task_count"@) {
                Some(x) => spec_as_usize(x),
                None => None,
            };
            let ca = spec_opt_str_field(fields, "created_at"@);
            match (pid, desc, tc, ca) {
                (Some(p), Some(d), Some(t), Some(c)) => Some(
                    PlanSummaryV { plan_id: p, description: d, task_count: t, created_at: c },
                ),
                _ => None,
            }
        },
        _ => None,
    }
}

/// Reads a plan-summary document.
fn decode_summary(j: &Json) -> (r: Option<PlanSummary>)
    ensures
        match r {
            Some(s) => spec_decode_summary(j@) == Some(s@),
            None => spec_decode_summary(j@) is None,
        },
{
    let fields = match j {
        Json::Obj(fields) => fields,
        _ => {
            return None;
        },
    };
    let plan_id = match obj_get(fields, "plan_id") {
        Some(Json::Str(s)) => s.clone(),
        _ => {
            return None;
        },
    };
    let description = match opt_str_field(fields, "description") {
        Some(d) => d,
        None => {
            return None;
        },
    };
    let task_count = match obj_get(fields, "task_count") {
        Some(Json::Int(n)) => {
            if 0 <= *n && *n as u64 <= usize::MAX as u64 {
                *n as usize
            } else {
                return None;
            }
        },
        _ => {
            return None;
        },
    };
    let created_at = match opt_str_field(fields, "created_at") {
        Some(c) => c,
        None => {
            return None;
        },
    };
    let s = PlanSummary { plan_id, description, task_count, created_at };
    proof {
        assert(s@ =~~= spec_decode_summary(j@)->Some_0);
    }
    Some(s)
}

/// The summaries of a plan-listing reply from element `i` on: every element
/// must be a bulk string holding a summary document; all or nothing.
pub open spec fn spec_decode_summaries(items: Seq<RespValueV>, i: int) -> Option<
    Seq<PlanSummaryV>,
>
    decreases items.len() - i,
{
    if !(0 <= i < items.len()) {
        Some(Seq::empty())
    } else {
        match items[i] {
            RespValueV::BulkString(s) => match spec_parse_json(s) {
                Some(j) => match spec_decode_summary(j) {
                    Some(one) => match spec_decode_summaries(items, i + 1) {
                        Some(rest) => Some(seq![one] + rest),
                        None => None,
                    },
                    None => None,
                },
                None => None,
            },
            _ => None,
        }
    }
}

/// What a plan-listing reply owes: the summaries, exactly when the reply is
/// an array whose every element is a bulk summary document.
pub open spec fn spec_interpret_list_plans(v: RespValueV) -> Option<Seq<PlanSummaryV>> {
    match v {
        RespValueV::Array(items) => spec_decode_summaries(items, 0),
        _ => None,
    }
}

/// Judges a plan-listing reply: an array whose every element is a bulk
/// summary document; one unexpected element aborts the whole call, so no
/// partial listing is ever returned.
pub fn interpret_list_plans_reply(v: RespValue) -> (r: Result<Vec<PlanSummary>, ClientError>)
    ensures
        (r is Ok) == (spec_interpret_list_plans(v@) is Some),
        r matches Ok(sums) ==> spec_interpret_list_plans(v@) == Some(
            Seq::new(sums@.len(), |k: int| sums@[k]@),
        ),
        r matches Err(ClientError::Remote(m)) ==> v@ == RespValueV::Error(m@),
        v@ is Error ==> (r matches Err(e) && e is Remote),
{
    let items = match v {
        RespValue::Array(items) => items,
        RespValue::Error(m) => {
            return Err(ClientError::Remote(m));
        },
        _ => {
            return Err(ClientError::UnexpectedReply);
        },
    };
    let ghost vs = crate::resp::resp_views(items@);
    proof {
        crate::resp::lemma_resp_views_index(items@);
    }
    let mut out: Vec<PlanSummary> = Vec::new();
    let mut k: usize = 0;
    while k < items.len()
        invariant
            k <= items@.len(),
            out@.len() == k,
            v@ == RespValueV::Array(vs),
            vs == crate::resp::resp_views(items@),
            vs.len() == items@.len(),
            forall|m: int|
                0 <= m < items@.len() ==> vs[m] == crate::resp::resp_view(#[trigger] items@[m]),
            spec_decode_summaries(vs, 0) == (match spec_decode_summaries(vs, k as int) {
                Some(rest) => Some(Seq::new(out@.len(), |m: int| out@[m]@) + rest),
                None => None::<Seq<PlanSummaryV>>,
            }),
        decreases items@.len() - k,
    {
        let ghost before = Seq::new(out@.len(), |m: int| out@[m]@);
        let one = match &items[k] {
            RespValue::BulkString(s) => {
                let j = match parse_json(s.as_str()) {
                    Ok(j) => j,
                    Err(e) => {
                        proof {
                            assert(vs[k as int] == RespValueV::BulkString(s@));
                            assert(spec_decode_summaries(vs, k as int) is None);
                        }
                        return Err(ClientError::DecodeFailed(e.describe()));
                    },
                };
                match decode_summary(&j) {
                    Some(one) => one,
                    None => {
                        proof {
                            assert(vs[k as int] == RespValueV::BulkString(s@));
                            assert(spec_decode_summaries(vs, k as int) is None);
                        }
                        return Err(
                            ClientError::DecodeFailed(
                                "element is not a plan summary".to_owned(),
                            ),
                        );
                    },
                }
            },
            _ => {
                proof {
                    assert(!(vs[k as int] is BulkString));
                    assert(spec_decode_summaries(vs, k as int) is None);
                }
                return Err(ClientError::UnexpectedReply);
            },
        };
        let ghost onev = one@;
        out.push(one);
        k = k + 1;
        proof {
            let now = Seq::new(out@.len(), |m: int| out@[m]@);
            assert(now =~= before.push(onev));
            match spec_decode_summaries(vs, k as int) {
                Some(rest) => {
                    assert(spec_decode_summaries(vs, k - 1) == Some::<Seq<PlanSummaryV>>(
                        seq![onev] + rest,
                    ));
                    assert(before + (seq![onev] + rest) =~= now + rest);
                },
                None => {
                    assert(spec_decode_summaries(vs, k - 1) is None);
                },
            }
        }
    }
    proof {
        assert(spec_decode_summaries(vs, k as int) == Some(Seq::<PlanSummaryV>::empty()));
        assert(Seq::new(out@.len(), |m: int| out@[m]@) + Seq::<PlanSummaryV>::empty() =~= Seq::new(
            out@.len(),
            |m: int| out@[m]@,
        ));
    }
    Ok(out)
}

/// What a full-plan reply owes: a bulk string holding a canonical plan
/// document.
pub open spec fn spec_interpret_get_plan(v: RespValueV) -> Option<crate::plan::WorkflowPlanV> {
    match v {
        RespValueV::BulkString(s) => match spec_parse_json(s) {
            Some(j) => spec_decode_canonical(j),
            None => None,
        },
        _ => None,
    }
}

/// Judges a plan-retrieval reply: a bulk string decoding as a canonical plan
/// document.
pub fn interpret_get_plan_reply(v: RespValue) -> (r: Result<WorkflowPlan, ClientError>)
    ensures
        r matches Ok(p) ==> spec_interpret_get_plan(v@) == Some(p@),
        r matches Err(ClientError::Remote(m)) ==> v@ == RespValueV::Error(m@),
        v@ is Error ==> (r matches Err(e) && e is Remote),
        r is Err ==> spec_interpret_get_plan(v@) is None,
{
    match v {
        RespValue::BulkString(s) => {
            let j = match parse_json(s.as_str()) {
                Ok(j) => j,
                Err(e) => {
                    return Err(ClientError::DecodeFailed(e.describe()));
                },
            };
            match decode_canonical(&j) {
                Some(p) => Ok(p),
                None => Err(
                    ClientError::DecodeFailed("response is not a plan document".to_owned()),
                ),
            }
        },
        RespValue::Error(m) => Err(ClientError::Remote(m)),
        _ => Err(ClientError::UnexpectedReply),
    }
}

/// The display lines of a listing reply from element `i` on: strings stand as
/// they are, integers in decimal, anything else is passed over.
pub open spec fn spec_ops_strings(items: Seq<RespValueV>, i: int) -> Seq<Seq<char>>
    decreases items.len() - i,
{
    if !(0 <= i < items.len()) {
        Seq::empty()
    } else {
        let rest = spec_ops_strings(items, i + 1);
        match items[i] {
            RespValueV::SimpleString(s) => seq![s] + rest,
            RespValueV::BulkString(s) => seq![s] + rest,
            RespValueV::Integer(n) => seq![spec_print_int(n)] + rest,
            _ => rest,
        }
    }
}

/// Judges a listing reply (jobs, workers, queue statistics): an array is
/// coerced to display lines, a lone string stands alone, an error is the
/// remote's refusal.
pub fn interpret_ops_reply(v: RespValue) -> (r: Result<Vec<String>, ClientError>)
    ensures
        r matches Ok(lines) ==> (match v@ {
            RespValueV::Array(items) => Seq::new(lines@.len(), |k: int| lines@[k]@)
                == spec_ops_strings(items, 0),
            RespValueV::SimpleString(s) => Seq::new(lines@.len(), |k: int| lines@[k]@) == seq![s],
            RespValueV::BulkString(s) => Seq::new(lines@.len(), |k: int| lines@[k]@) == seq![s],
            _ => false,
        }),
        r matches Err(ClientError::Remote(m)) ==> v@ == RespValueV::Error(m@),
        v@ is Error ==> (r matches Err(e) && e is Remote),
        (r is Err) == (v@ is Error || v@ is Integer || v@ is Null),
{
    let items = match v {
        RespValue::Array(items) => items,
        RespValue::SimpleString(s) => {
            let mut lines: Vec<String> = Vec::new();
            let ghost sv = s@;
            lines.push(s);
            proof {
                assert(Seq::new(lines@.len(), |k: int| lines@[k]@) =~= seq![sv]);
            }
            return Ok(lines);
        },
        RespValue::BulkString(s) => {
            let mut lines: Vec<String> = Vec::new();
            let ghost sv = s@;
            lines.push(s);
            proof {
                assert(Seq::new(lines@.len(), |k: int| lines@[k]@) =~= seq![sv]);
            }
            return Ok(lines);
        },
        RespValue::Error(m) => {
            return Err(ClientError::Remote(m));
        },
        _ => {
            return Err(ClientError::UnexpectedReply);
        },
    };
    let ghost vs = crate::resp::resp_views(items@);
    proof {
        crate::resp::lemma_resp_views_index(items@);
    }
    let mut out: Vec<String> = Vec::new();
    let mut rest = items;
    let ghost total = vs.len();
    let mut k: usize = 0;
    while k < rest.len()
        invariant
            k <= rest@.len(),
            rest@.len() == total,
            vs == crate::resp::resp_views(rest@),
            vs.len() == total,
            forall|m: int|
                0 <= m < rest@.len() ==> vs[m] == crate::resp::resp_view(#[trigger] rest@[m]),
            spec_ops_strings(vs, 0) == (Seq::new(out@.len(), |m: int| out@[m]@) + spec_ops_strings(
                vs,
                k as int,
            )),
        decreases rest@.len() - k,
    {
        let ghost before = Seq::new(out@.len(), |m: int| out@[m]@);
        let ghost mut pushed: Option<Seq<char>> = None;
        match &rest[k] {
            RespValue::SimpleString(s) => {
                out.push(s.clone());
                proof {
                    pushed = Some(s@);
                }
            },
            RespValue::BulkString(s) => {
                out.push(s.clone());
                proof {
                    pushed = Some(s@);
                }
            },
            RespValue::Integer(n) => {
                let line = i64_dec_string(*n);
                proof {
                    pushed = Some(line@);
                }
                out.push(line);
            },
            _ => {
            },
        }
        k = k + 1;
        proof {
            let now = Seq::new(out@.len(), |m: int| out@[m]@);
            match pushed {
                Some(x) => {
                    assert(now =~= before.push(x));
                    assert(before + (seq![x] + spec_ops_strings(vs, k as int)) =~= now
                        + spec_ops_strings(vs, k as int));
                },
                None => {
                    assert(now =~= before);
                },
            }
        }
    }
    proof {
        assert(spec_ops_strings(vs, k as int) =~= Seq::<Seq<char>>::empty());
        assert(Seq::new(out@.len(), |m: int| out@[m]@) + Seq::<Seq<char>>::empty() =~= Seq::new(
            out@.len(),
            |m: int| out@[m]@,
        ));
    }
    Ok(out)
}

/// The frame of a command with no argument.
pub open spec fn spec_command_frame(cmd: Seq<char>) -> Seq<u8> {
    spec_encode_array(seq![encode_utf8(cmd)])
}

/// The frame of a command with one argument.
pub open spec fn spec_command_frame1(cmd: Seq<char>, arg: Seq<char>) -> Seq<u8> {
    spec_encode_array(seq![encode_utf8(cmd), encode_utf8(arg)])
}

/// Builds the frame of a command with no argument.
fn command_frame(cmd: &str) -> (r: Vec<u8>)
    ensures
        r@ == spec_command_frame(cmd@),
{
    let mut parts: Vec<String> = Vec::new();
    parts.push(cmd.to_owned());
    let r = resp_array(&parts);
    proof {
        assert(Seq::new(parts@.len(), |k: int| encode_utf8(parts@[k]@)) =~= seq![
            encode_utf8(cmd@),
        ]);
    }
    r
}

/// Builds the frame of a command with one argument.
fn command_frame1(cmd: &str, arg: &str) -> (r: Vec<u8>)
    ensures
        r@ == spec_command_frame1(cmd@, arg@),
{
    let mut parts: Vec<String> = Vec::new();
    parts.push(cmd.to_owned());
    parts.push(arg.to_owned());
    let r = resp_array(&parts);
    proof {
        assert(Seq::new(parts@.len(), |k: int| encode_utf8(parts@[k]@)) =~= seq![
            encode_utf8(cmd@),
            encode_utf8(arg@),
        ]);
    }
    r
}

/// The frame that submits a plan document.
pub fn submit_plan_request(plan_json: &str) -> (r: Vec<u8>)
    ensures
        r@ == spec_command_frame1("PLAN.SUBMIT"@, plan_json@),
{
    command_frame1("PLAN.SUBMIT", plan_json)
}

/// The frame that submits an action request.
pub fn submit_action_request(action_json: &str) -> (r: Vec<u8>)
    ensures
        r@ == spec_command_frame1("ACTION.SUBMIT"@, action_json@),
{
    command_frame1("ACTION.SUBMIT", action_json)
}

/// The frame that lists stored plans.
pub fn list_plans_request() -> (r: Vec<u8>)
    ensures
        r@ == spec_command_frame("PLAN.LIST"@),
{
    command_frame("PLAN.LIST")
}

/// The frame that retrieves one plan; the identifier must already have
/// passed `validate_plan_id`, so it cannot inject framing.
pub fn get_plan_request(plan_id: &str) -> (r: Result<Vec<u8>, String>)
    ensures
        r matches Ok(f) ==> f@ == spec_command_frame1("PLAN.GET"@, plan_id@) && spec_plan_id_ok(
            plan_id@,
        ),
        r is Err <==> !spec_plan_id_ok(plan_id@),
{
    match validate_plan_id(plan_id) {
        Ok(_) => Ok(command_frame1("PLAN.GET", plan_id)),
        Err(m) => Err(m),
    }
}

/// The frame that lists jobs.
pub fn list_jobs_request() -> (r: Vec<u8>)
    ensures
        r@ == spec_command_frame("JOBS.LIST"@),
{
    command_frame("JOBS.LIST")
}

/// The frame that lists workers.
pub fn list_workers_request() -> (r: Vec<u8>)
    ensures
        r@ == spec_command_frame("WORKERS.LIST"@),
{
    command_frame("WORKERS.LIST")
}

/// The frame that asks for queue statistics.
pub fn queue_stats_request() -> (r: Vec<u8>)
    ensures
        r@ == spec_command_frame("QUEUE.STATS"@),
{
    command_frame("QUEUE.STATS")
}

/// The phases of one call against the queue.
#[derive(Debug, Clone, Copy, PartialEq, Eq, Structural)]
pub enum SessionPhase {
    /// Nothing sent yet.
    Start,
    /// The credential is on the wire; its reply is owed.
    SentAuth,
    /// The credential was accepted; the command may go.
    AuthOk,
    /// The command is on the wire; its reply is owed.
    SentCommand,
    /// The command's reply arrived.
    Done,
    /// The call was aborted; nothing more may be sent.
    Failed,
}

/// One observable step of a call.
pub ghost enum SessionEvent {
    SendAuth,
    AuthReply(RespValueV),
    SendCommand,
    CommandReply(RespValueV),
}

/// Whether a credential reply counts as acceptance: a simple or bulk string.
pub open spec fn spec_auth_accepted(v: RespValueV) -> bool {
    v is SimpleString || v is BulkString
}

/// The phase after one step. Any step out of turn fails the call, and a
/// failed call stays failed.
pub open spec fn spec_phase_step(phase: SessionPhase, has_key: bool, ev: SessionEvent) -> SessionPhase {
    match (phase, ev) {
        (SessionPhase::Start, SessionEvent::SendAuth) => if has_key {
            SessionPhase::SentAuth
        } else {
            SessionPhase::Failed
        },
        (SessionPhase::Start, SessionEvent::SendCommand) => if !has_key {
            SessionPhase::SentCommand
        } else {
            SessionPhase::Failed
        },
        (SessionPhase::SentAuth, SessionEvent::AuthReply(v)) => if spec_auth_accepted(v) {
            SessionPhase::AuthOk
        } else {
            SessionPhase::Failed
        },
        (SessionPhase::AuthOk, SessionEvent::SendCommand) => SessionPhase::SentCommand,
        (SessionPhase::SentCommand, SessionEvent::CommandReply(_)) => SessionPhase::Done,
        _ => SessionPhase::Failed,
    }
}

/// The phase after a run of steps, from `phase`.
pub open spec fn spec_run(phase: SessionPhase, has_key: bool, evts: Seq<SessionEvent>) -> SessionPhase
    decreases evts.len(),
{
    if evts.len() == 0 {
        phase
    } else {
        spec_run(spec_phase_step(phase, has_key, evts[0]), has_key, evts.drop_first())
    }
}

/// A failed call stays failed, whatever else happens.
pub proof fn lemma_failed_absorbs(has_key: bool, evts: Seq<SessionEvent>)
    ensures
        spec_run(SessionPhase::Failed, has_key, evts) == SessionPhase::Failed,
    decreases evts.len(),
{
    if evts.len() > 0 {
        lemma_failed_absorbs(has_key, evts.drop_first());
    }
}

/// Appending one step runs the step last.
pub proof fn lemma_run_snoc(
    phase: SessionPhase,
    has_key: bool,
    evts: Seq<SessionEvent>,
    ev: SessionEvent,
)
    ensures
        spec_run(phase, has_key, evts.push(ev)) == spec_phase_step(
            spec_run(phase, has_key, evts),
            has_key,
            ev,
        ),
    decreases evts.len(),
{
    let whole = evts.push(ev);
    if evts.len() == 0 {
        assert(whole[0] == ev);
        assert(whole.drop_first() =~= Seq::<SessionEvent>::empty());
        assert(spec_run(phase, has_key, whole) == spec_run(
            spec_phase_step(phase, has_key, ev),
            has_key,
            whole.drop_first(),
        ));
    } else {
        assert(whole[0] == evts[0]);
        assert(whole.drop_first() =~= evts.drop_first().push(ev));
        lemma_run_snoc(spec_phase_step(phase, has_key, evts[0]), has_key, evts.drop_first(), ev);
        assert(spec_run(phase, has_key, whole) == spec_run(
            spec_phase_step(phase, has_key, evts[0]),
            has_key,
            whole.drop_first(),
        ));
        assert(spec_run(phase, has_key, evts) == spec_run(
            spec_phase_step(phase, has_key, evts[0]),
            has_key,
            evts.drop_first(),
        ));
    }
}

/// With a credential configured, a call only reaches its command after the
/// credential went first and its reply was accepted: the first step is the
/// credential, the second is its accepted reply. In particular, an error
/// reply to the credential aborts the call before the command is sent.
pub proof fn lemma_auth_precedes_command(evts: Seq<SessionEvent>)
    requires
        spec_run(SessionPhase::Start, true, evts) == SessionPhase::SentCommand || spec_run(
            SessionPhase::Start,
            true,
            evts,
        ) == SessionPhase::Done,
    ensures
        evts.len() >= 2,
        evts[0] is SendAuth,
        evts[1] matches SessionEvent::AuthReply(v) && spec_auth_accepted(v),
{
    if evts.len() == 0 {
    } else {
        let p1 = spec_phase_step(SessionPhase::Start, true, evts[0]);
        assert(spec_run(SessionPhase::Start, true, evts) == spec_run(
            p1,
            true,
            evts.drop_first(),
        ));
        if !(evts[0] is SendAuth) {
            assert(p1 == SessionPhase::Failed);
            lemma_failed_absorbs(true, evts.drop_first());
        } else {
            assert(p1 == SessionPhase::SentAuth);
            let rest = evts.drop_first();
            if rest.len() == 0 {
                assert(spec_run(SessionPhase::SentAuth, true, rest) == SessionPhase::SentAuth);
            } else {
                let p2 = spec_phase_step(SessionPhase::SentAuth, true, rest[0]);
                assert(spec_run(SessionPhase::SentAuth, true, rest) == spec_run(
                    p2,
                    true,
                    rest.drop_first(),
                ));
                if !(rest[0] matches SessionEvent::AuthReply(v) && spec_auth_accepted(v)) {
                    assert(p2 == SessionPhase::Failed);
                    lemma_failed_absorbs(true, rest.drop_first());
                } else {
                    assert(evts[1] == rest[0]);
                }
            }
        }
    }
}

/// One call's conduct: the frames to hand to the transport, in order, and
/// the judgement of the credential's reply. The phase always equals the run
/// of the recorded steps, so the laws over `spec_run` hold of every session.
pub struct AgqSession {
    has_key: bool,
    auth_frame: Vec<u8>,
    command_frame: Vec<u8>,
    phase: SessionPhase,
    events: Ghost<Seq<SessionEvent>>,
}

impl AgqSession {
    /// The session's steps so far.
    pub closed spec fn spec_events(&self) -> Seq<SessionEvent> {
        self.events@
    }

    /// Whether a credential is configured for this session.
    pub closed spec fn spec_has_key(&self) -> bool {
        self.has_key
    }

    /// The frame carrying the substantive command.
    pub closed spec fn spec_command_bytes(&self) -> Seq<u8> {
        self.command_frame@
    }

    /// The session's phase tracks the run of its steps.
    pub closed spec fn wf(&self) -> bool {
        self.phase == spec_run(SessionPhase::Start, self.has_key, self.events@)
    }

    /// The session's current phase.
    pub fn phase(&self) -> (r: SessionPhase)
        requires
            self.wf(),
        ensures
            r == spec_run(SessionPhase::Start, self.spec_has_key(), self.spec_events()),
    {
        self.phase
    }

    /// Begins one call: the command frame is fixed now, and the credential
    /// frame stands ready when the configuration holds a key.
    pub fn new(client: &AgqClient, command: Vec<u8>) -> (r: AgqSession)
        ensures
            r.wf(),
            r.spec_events().len() == 0,
            r.spec_has_key() == (client.config.session_key is Some),
            r.spec_command_bytes() == command@,
    {
        let (has_key, auth_frame) = match &client.config.session_key {
            Some(key) => (true, command_frame1("AUTH", key.as_str())),
            None => (false, Vec::new()),
        };
        AgqSession {
            has_key,
            auth_frame,
            command_frame: command,
            phase: SessionPhase::Start,
            events: Ghost(Seq::empty()),
        }
    }

    /// The next frame to put on the wire, if it is this session's turn to
    /// send: the credential first when one is configured, the command from
    /// `Start` otherwise or once the credential was accepted. In every other
    /// phase nothing may be sent.
    pub fn next_frame(&mut self) -> (r: Option<Vec<u8>>)
        requires
            old(self).wf(),
        ensures
            final(self).wf(),
            final(self).spec_has_key() == old(self).spec_has_key(),
            final(self).spec_command_bytes() == old(self).spec_command_bytes(),
            spec_run(SessionPhase::Start, old(self).spec_has_key(), old(self).spec_events())
                == SessionPhase::Start && old(self).spec_has_key() ==> (r matches Some(f) && f@
                == final(self).spec_auth_bytes() && final(self).spec_events() == old(
                self,
            ).spec_events().push(SessionEvent::SendAuth)),
            spec_run(SessionPhase::Start, old(self).spec_has_key(), old(self).spec_events())
                == SessionPhase::Start && !old(self).spec_has_key() ==> (r matches Some(f) && f@
                == old(self).spec_command_bytes() && final(self).spec_events() == old(
                self,
            ).spec_events().push(SessionEvent::SendCommand)),
            spec_run(SessionPhase::Start, old(self).spec_has_key(), old(self).spec_events())
                == SessionPhase::AuthOk ==> (r matches Some(f) && f@ == old(
                self,
            ).spec_command_bytes() && final(self).spec_events() == old(self).spec_events().push(
                SessionEvent::SendCommand,
            )),
            !(spec_run(SessionPhase::Start, old(self).spec_has_key(), old(self).spec_events())
                == SessionPhase::Start || spec_run(
                SessionPhase::Start,
                old(self).spec_has_key(),
                old(self).spec_events(),
            ) == SessionPhase::AuthOk) ==> r is None && final(self).spec_events() == old(
                self,
            ).spec_events(),
    {
        match self.phase {
            SessionPhase::Start => {
                if self.has_key {
                    self.phase = SessionPhase::SentAuth;
                    proof {
                        lemma_run_snoc(
                            SessionPhase::Start,
                            self.has_key,
                            self.events@,
                            SessionEvent::SendAuth,
                        );
                    }
                    self.events = Ghost(self.events@.push(SessionEvent::SendAuth));
                    Some(clone_bytes(&self.auth_frame))
                } else {
                    self.phase = SessionPhase::SentCommand;
                    proof {
                        lemma_run_snoc(
                            SessionPhase::Start,
                            self.has_key,
                            self.events@,
                            SessionEvent::SendCommand,
                        );
                    }
                    self.events = Ghost(self.events@.push(SessionEvent::SendCommand));
                    Some(clone_bytes(&self.command_frame))
                }
            },
            SessionPhase::AuthOk => {
                self.phase = SessionPhase::SentCommand;
                proof {
                    lemma_run_snoc(
                        SessionPhase::Start,
                        self.has_key,
                        self.events@,
                        SessionEvent::SendCommand,
                    );
                }
                self.events = Ghost(self.events@.push(SessionEvent::SendCommand));
                Some(clone_bytes(&self.command_frame))
            },
            _ => None,
        }
    }

    /// The credential frame, when one is configured.
    pub closed spec fn spec_auth_bytes(&self) -> Seq<u8> {
        self.auth_frame@
    }

    /// Judges the reply to the credential: a string accepts the session, the
    /// remote's error aborts it as an authentication failure whose account
    /// names AUTH, and any other shape aborts it as a protocol violation.
    pub fn on_auth_reply(&mut self, v: RespValue) -> (r: Result<(), ClientError>)
        requires
            old(self).wf(),
        ensures
            final(self).wf(),
            final(self).spec_has_key() == old(self).spec_has_key(),
            final(self).spec_command_bytes() == old(self).spec_command_bytes(),
            final(self).spec_events() == old(self).spec_events().push(
                SessionEvent::AuthReply(v@),
            ),
            r is Ok <==> (spec_run(
                SessionPhase::Start,
                old(self).spec_has_key(),
                old(self).spec_events(),
            ) == SessionPhase::SentAuth && spec_auth_accepted(v@)),
            r matches Err(ClientError::AuthFailed(m)) ==> (v@ matches RespValueV::Error(e) && m@
                == "AUTH failed: "@ + e),
            v@ matches RespValueV::Error(e) ==> (r matches Err(x) && x is AuthFailed),
    {
        proof {
            lemma_run_snoc(
                SessionPhase::Start,
                self.has_key,
                self.events@,
                SessionEvent::AuthReply(v@),
            );
        }
        let in_turn = match self.phase {
            SessionPhase::SentAuth => true,
            _ => false,
        };
        self.events = Ghost(self.events@.push(SessionEvent::AuthReply(v@)));
        match v {
            RespValue::SimpleString(_) => {
                if in_turn {
                    self.phase = SessionPhase::AuthOk;
                    Ok(())
                } else {
                    self.phase = SessionPhase::Failed;
                    Err(ClientError::UnexpectedAuthReply)
                }
            },
            RespValue::BulkString(_) => {
                if in_turn {
                    self.phase = SessionPhase::AuthOk;
                    Ok(())
                } else {
                    self.phase = SessionPhase::Failed;
                    Err(ClientError::UnexpectedAuthReply)
                }
            },
            RespValue::Error(m) => {
                self.phase = SessionPhase::Failed;
                let mut s = "AUTH failed: ".to_owned();
                s.append(m.as_str());
                Err(ClientError::AuthFailed(s))
            },
            _ => {
                self.phase = SessionPhase::Failed;
                Err(ClientError::UnexpectedAuthReply)
            },
        }
    }

    /// Records the command's reply, finishing the call.
    pub fn on_command_reply(&mut self, Ghost(v): Ghost<RespValueV>)
        requires
            old(self).wf(),
        ensures
            final(self).wf(),
            final(self).spec_events() == old(self).spec_events().push(
                SessionEvent::CommandReply(v),
            ),
    {
        proof {
            lemma_run_snoc(
                SessionPhase::Start,
                self.has_key,
                self.events@,
                SessionEvent::CommandReply(v),
            );
        }
        self.events = Ghost(self.events@.push(SessionEvent::CommandReply(v)));
        match self.phase {
            SessionPhase::SentCommand => {
                self.phase = SessionPhase::Done;
            },
            _ => {
                self.phase = SessionPhase::Failed;
            },
        }
    }
}

/// Copies a frame so the session can be asked again.
fn clone_bytes(v: &Vec<u8>) -> (r: Vec<u8>)
    ensures
        r@ == v@,
{
    let mut out: Vec<u8> = Vec::new();
    let mut k: usize = 0;
    while k < v.len()
        invariant
            k <= v@.len(),
            out@ == v@.subrange(0, k as int),
        decreases v@.len() - k,
    {
        out.push(v[k]);
        k = k + 1;
        proof {
            assert(out@ =~= v@.subrange(0, k as int));
        }
    }
    proof {
        assert(out@ =~= v@);
    }
    out
}

/// The decimal form of a signed integer as a `String`.
fn i64_dec_string(x: i64) -> (r: String)
    ensures
        r@ == spec_print_int(x as int),
{
    let mag: u64 = if x < 0 {
        if x == i64::MIN {
            9223372036854775808u64
        } else {
            (-x) as u64
        }
    } else {
        x as u64
    };
    if x < 0 {
        let mut s = "-".to_owned();
        s.append(u64_dec_string(mag).as_str());
        proof {
            reveal_strlit("-");
            assert(s@ =~= seq!['-'] + spec_dec(mag as nat));
        }
        s
    } else {
        u64_dec_string(mag)
    }
}

} // verus!
