//! The built-in tool registry: the lookup from a plan's logical command name
//! to the executable to run and the exit codes its policy counts as success.

use vstd::prelude::*;

use crate::text::str_eq_str;

verus! {

/// One tool the executor may run.
#[derive(Debug, Clone)]
pub struct Tool {
    pub id: String,
    pub command: String,
    pub description: String,
    pub patterns: Vec<String>,
    pub ok_exit_codes: Vec<i32>,
}

/// The model of a tool.
#[verifier::ext_equal]
pub ghost struct ToolV {
    pub id: Seq<char>,
    pub command: Seq<char>,
    pub description: Seq<char>,
    pub patterns: Seq<Seq<char>>,
    pub ok_exit_codes: Seq<int>,
}

impl View for Tool {
    type V = ToolV;

    open spec fn view(&self) -> ToolV {
        ToolV {
            id: self.id@,
            command: self.command@,
            description: self.description@,
            patterns: Seq::new(self.patterns@.len(), |k: int| self.patterns@[k]@),
            ok_exit_codes: Seq::new(
                self.ok_exit_codes@.len(),
                |k: int| self.ok_exit_codes@[k] as int,
            ),
        }
    }
}

/// The models of a sequence of tools.
pub open spec fn tools_view(ts: Seq<Tool>) -> Seq<ToolV> {
    Seq::new(ts.len(), |k: int| ts[k]@)
}

/// The fixed set of tools this registry offers, in order.
pub open spec fn spec_builtin_tools() -> Seq<ToolV> {
    seq![
        ToolV {
            id: "sort"@,
            command: "sort"@,
            description: "Sort lines of text."@,
            patterns: seq!["sort"@, "order"@, "alphabetize"@, "sort lines"@],
            ok_exit_codes: seq![0],
        },
        ToolV {
            id: "uniq"@,
            command: "uniq"@,
            description: "Remove duplicate lines."@,
            patterns: seq!["dedupe"@, "unique"@, "remove duplicates"@],
            ok_exit_codes: seq![0],
        },
        ToolV {
            id: "grep"@,
            command: "grep"@,
            description: "Filter lines that match a pattern."@,
            patterns: seq!["search"@, "filter"@, "match"@, "grep"@],
            ok_exit_codes: seq![0, 1],
        },
        ToolV {
            id: "cut"@,
            command: "cut"@,
            description: "Extract fields or columns from lines."@,
            patterns: seq!["columns"@, "fields"@, "delimiter"@, "extract columns"@],
            ok_exit_codes: seq![0],
        },
        ToolV {
            id: "tr"@,
            command: "tr"@,
            description: "Translate or delete characters in text."@,
            patterns: seq![
                "translate"@,
                "replace characters"@,
                "lowercase"@,
                "uppercase"@,
            ],
            ok_exit_codes: seq![0],
        },
        ToolV {
            id: "jq"@,
            command: "jq"@,
            description: "Filter and transform JSON data."@,
            patterns: seq!["json"@, "jq"@, "filter json"@, "transform json"@],
            ok_exit_codes: seq![0],
        },
    ]
}

/// The first tool whose id is `id`, from position `i` on.
pub open spec fn spec_find_tool(ts: Seq<ToolV>, id: Seq<char>, i: int) -> Option<ToolV>
    decreases ts.len() - i,
{
    if !(0 <= i < ts.len()) {
        None
    } else if ts[i].id == id {
        Some(ts[i])
    } else {
        spec_find_tool(ts, id, i + 1)
    }
}

/// The lookup from logical command names to concrete tools.
pub struct ToolRegistry {
    tools: Vec<Tool>,
}

impl ToolRegistry {
    /// The tools this registry offers.
    pub closed spec fn spec_tools(&self) -> Seq<ToolV> {
        tools_view(self.tools@)
    }

    /// A registry holding the built-in tools.
    pub fn new() -> (r: ToolRegistry)
        ensures
            r.spec_tools() == spec_builtin_tools(),
    {
        let mut tools: Vec<Tool> = Vec::new();
        tools.push(
            Tool {
                id: "sort".to_owned(),
                command: "sort".to_owned(),
                description: "Sort lines of text.".to_owned(),
                patterns: make_patterns4("sort", "order", "alphabetize", "sort lines"),
                ok_exit_codes: make_codes1(0),
            },
        );
        tools.push(
            Tool {
                id: "uniq".to_owned(),
                command: "uniq".to_owned(),
                description: "Remove duplicate lines.".to_owned(),
                patterns: make_patterns3("dedupe", "unique", "remove duplicates"),
                ok_exit_codes: make_codes1(0),
            },
        );
        tools.push(
            Tool {
                id: "grep".to_owned(),
                command: "grep".to_owned(),
                description: "Filter lines that match a pattern.".to_owned(),
                patterns: make_patterns4("search", "filter", "match", "grep"),
                ok_exit_codes: make_codes2(0, 1),
            },
        );
        tools.push(
            Tool {
                id: "cut".to_owned(),
                command: "cut".to_owned(),
                description: "Extract fields or columns from lines.".to_owned(),
                patterns: make_patterns4("columns", "fields", "delimiter", "extract columns"),
                ok_exit_codes: make_codes1(0),
            },
        );
        tools.push(
            Tool {
                id: "tr".to_owned(),
                command: "tr".to_owned(),
                description: "Translate or delete characters in text.".to_owned(),
                patterns: make_patterns4(
                    "translate",
                    "replace characters",
                    "lowercase",
                    "uppercase",
                ),
                ok_exit_codes: make_codes1(0),
            },
        );
        tools.push(
            Tool {
                id: "jq".to_owned(),
                command: "jq".to_owned(),
                description: "Filter and transform JSON data.".to_owned(),
                patterns: make_patterns4("json", "jq", "filter json", "transform json"),
                ok_exit_codes: make_codes1(0),
            },
        );
        let r = ToolRegistry { tools };
        proof {
            assert(r.spec_tools()[0] =~~= spec_builtin_tools()[0]);
            assert(r.spec_tools()[1] =~~= spec_builtin_tools()[1]);
            assert(r.spec_tools()[2] =~~= spec_builtin_tools()[2]);
            assert(r.spec_tools()[3] =~~= spec_builtin_tools()[3]);
            assert(r.spec_tools()[4] =~~= spec_builtin_tools()[4]);
            assert(r.spec_tools()[5] =~~= spec_builtin_tools()[5]);
            assert(r.spec_tools() =~= spec_builtin_tools());
        }
        r
    }

    /// Every tool, in order.
    pub fn tools(&self) -> (r: &Vec<Tool>)
        ensures
            tools_view(r@) == self.spec_tools(),
    {
        &self.tools
    }

    /// Every tool, in order.
    pub fn list_tools(&self) -> (r: &Vec<Tool>)
        ensures
            tools_view(r@) == self.spec_tools(),
    {
        self.tools()
    }

    /// The tool registered under `id`, if any.
    pub fn find_by_id(&self, id: &str) -> (r: Option<&Tool>)
        ensures
            match r {
                Some(t) => spec_find_tool(self.spec_tools(), id@, 0) == Some(t@),
                None => spec_find_tool(self.spec_tools(), id@, 0) is None,
            },
    {
        let ghost ts = self.spec_tools();
        let mut k: usize = 0;
        while k < self.tools.len()
            invariant
                k <= self.tools@.len(),
                ts == tools_view(self.tools@),
                ts.len() == self.tools@.len(),
                forall|m: int| 0 <= m < ts.len() ==> ts[m] == (#[trigger] self.tools@[m])@,
                spec_find_tool(ts, id@, 0) == spec_find_tool(ts, id@, k as int),
            decreases self.tools@.len() - k,
        {
            if str_eq_str(self.tools[k].id.as_str(), id) {
                return Some(&self.tools[k]);
            }
            k = k + 1;
        }
        None
    }

    /// One line per tool for the planner's prompt: the id, its description,
    /// the executable, and the phrases it answers to.
    pub fn describe_for_planner(&self) -> (r: String)
        ensures
            r@ == spec_describe_tools(self.spec_tools()),
    {
        let ghost ts = self.spec_tools();
        let mut out = String::new();
        let mut k: usize = 0;
        while k < self.tools.len()
            invariant
                k <= self.tools@.len(),
                ts == tools_view(self.tools@),
                ts.len() == self.tools@.len(),
                forall|m: int| 0 <= m < ts.len() ==> ts[m] == (#[trigger] self.tools@[m])@,
                out@ == spec_describe_tools(ts.subrange(0, k as int)),
            decreases self.tools@.len() - k,
        {
            let ghost pre = ts.subrange(0, k as int);
            let ghost cur = ts.subrange(0, k + 1);
            if k > 0 {
                out.append("\n");
            }
            let line = tool_line(&self.tools[k]);
            out.append(line.as_str());
            k = k + 1;
            proof {
                reveal_strlit("\n");
                assert(cur.drop_last() =~= pre);
                assert(cur.last() == ts[k - 1]);
                if k == 1 {
                    assert(spec_describe_tools(cur) == spec_tool_line(cur[0]));
                    assert(out@ =~= spec_describe_tools(cur));
                } else {
                    assert(out@ =~= spec_describe_tools(cur));
                }
            }
        }
        proof {
            assert(ts.subrange(0, ts.len() as int) =~= ts);
        }
        out
    }
}

/// The prompt line for one tool.
pub open spec fn spec_tool_line(t: ToolV) -> Seq<char> {
    "- "@ + t.id + ": "@ + t.description + " (command: "@ + t.command + (if t.patterns.len() > 0 {
        ", patterns: "@ + spec_join_comma(t.patterns)
    } else {
        Seq::empty()
    }) + ")"@
}

/// The prompt lines for a run of tools, joined by line breaks.
pub open spec fn spec_describe_tools(ts: Seq<ToolV>) -> Seq<char>
    decreases ts.len(),
{
    if ts.len() == 0 {
        Seq::empty()
    } else if ts.len() == 1 {
        spec_tool_line(ts[0])
    } else {
        spec_describe_tools(ts.drop_last()) + "\n"@ + spec_tool_line(ts.last())
    }
}

/// Strings joined by commas and spaces.
pub open spec fn spec_join_comma(items: Seq<Seq<char>>) -> Seq<char>
    decreases items.len(),
{
    if items.len() == 0 {
        Seq::empty()
    } else if items.len() == 1 {
        items[0]
    } else {
        spec_join_comma(items.drop_last()) + ", "@ + items.last()
    }
}

/// Builds the prompt line for one tool.
fn tool_line(t: &Tool) -> (r: String)
    ensures
        r@ == spec_tool_line(t@),
{
    let mut out = "- ".to_owned();
    out.append(t.id.as_str());
    out.append(": ");
    out.append(t.description.as_str());
    out.append(" (command: ");
    out.append(t.command.as_str());
    if t.patterns.len() > 0 {
        out.append(", patterns: ");
        let ghost ps = t@.patterns;
        let mut k: usize = 0;
        let ghost mid = out@;
        while k < t.patterns.len()
            invariant
                k <= t.patterns@.len(),
                ps == t@.patterns,
                ps.len() == t.patterns@.len(),
                forall|m: int| 0 <= m < ps.len() ==> ps[m] == (#[trigger] t.patterns@[m])@,
                out@ == mid + spec_join_comma(ps.subrange(0, k as int)),
            decreases t.patterns@.len() - k,
        {
            let ghost pre = ps.subrange(0, k as int);
            let ghost cur = ps.subrange(0, k + 1);
            if k > 0 {
                out.append(", ");
            }
            out.append(t.patterns[k].as_str());
            k = k + 1;
            proof {
                reveal_strlit(", ");
                assert(cur.drop_last() =~= pre);
                assert(cur.last() == ps[k - 1]);
                if k == 1 {
                    assert(spec_join_comma(cur) == cur[0]);
                    assert(out@ =~= mid + spec_join_comma(cur));
                } else {
                    assert(out@ =~= mid + spec_join_comma(cur));
                }
            }
        }
        proof {
            assert(ps.subrange(0, ps.len() as int) =~= ps);
        }
    }
    out.append(")");
    proof {
        if t@.patterns.len() > 0 {
            assert(out@ =~= spec_tool_line(t@));
        } else {
            assert(out@ =~= spec_tool_line(t@));
        }
    }
    out
}

/// Four phrase patterns.
fn make_patterns4(a: &str, b: &str, c: &str, d: &str) -> (r: Vec<String>)
    ensures
        Seq::new(r@.len(), |k: int| r@[k]@) =~= seq![a@, b@, c@, d@],
{
    let mut v: Vec<String> = Vec::new();
    v.push(a.to_owned());
    v.push(b.to_owned());
    v.push(c.to_owned());
    v.push(d.to_owned());
    proof {
        assert(Seq::new(v@.len(), |k: int| v@[k]@) =~= seq![a@, b@, c@, d@]);
    }
    v
}

/// Three phrase patterns.
fn make_patterns3(a: &str, b: &str, c: &str) -> (r: Vec<String>)
    ensures
        Seq::new(r@.len(), |k: int| r@[k]@) =~= seq![a@, b@, c@],
{
    let mut v: Vec<String> = Vec::new();
    v.push(a.to_owned());
    v.push(b.to_owned());
    v.push(c.to_owned());
    proof {
        assert(Seq::new(v@.len(), |k: int| v@[k]@) =~= seq![a@, b@, c@]);
    }
    v
}

/// One accepted exit code.
fn make_codes1(a: i32) -> (r: Vec<i32>)
    ensures
        Seq::new(r@.len(), |k: int| r@[k] as int) =~= seq![a as int],
{
    let mut v: Vec<i32> = Vec::new();
    v.push(a);
    proof {
        assert(Seq::new(v@.len(), |k: int| v@[k] as int) =~= seq![a as int]);
    }
    v
}

/// Two accepted exit codes.
fn make_codes2(a: i32, b: i32) -> (r: Vec<i32>)
    ensures
        Seq::new(r@.len(), |k: int| r@[k] as int) =~= seq![a as int, b as int],
{
    let mut v: Vec<i32> = Vec::new();
    v.push(a);
    v.push(b);
    proof {
        assert(Seq::new(v@.len(), |k: int| v@[k] as int) =~= seq![a as int, b as int]);
    }
    v
}

} // verus!
