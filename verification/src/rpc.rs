//! The JSON-RPC mode's own rules: which request lines start a build, when a
//! progress notification is sent, and the text of the notifications and of
//! the answer to a build request. Reading a request goes through
//! `serde_json`; so does quoting a message as a JSON string.
use vstd::prelude::*;
use crate::codegen::opt_str_view;
use crate::parser::{copy_string, opt_view, string_views};
use crate::text::{append_chars, append_str, chars_eq, chars_of, decimal, push_decimal, string_of, trim, trim_spec};

verus! {

/// The build settings that a `build` request sets in its `params`; each
/// is `None` where the request does not set it.
#[derive(Debug)]
pub struct BuildParams {
    pub project_dir: Option<String>,
    pub root_module: Option<String>,
    pub cc_path: Option<String>,
    pub cc_args: Option<Vec<String>>,
}

/// The view of build params.
pub struct BuildParamsView {
    pub project_dir: Option<Seq<char>>,
    pub root_module: Option<Seq<char>>,
    pub cc_path: Option<Seq<char>>,
    pub cc_args: Option<Seq<Seq<char>>>,
}

impl View for BuildParams {
    type V = BuildParamsView;

    open spec fn view(&self) -> BuildParamsView {
        BuildParamsView {
            project_dir: opt_view(self.project_dir),
            root_module: opt_view(self.root_module),
            cc_path: opt_view(self.cc_path),
            cc_args: match self.cc_args {
                Some(v) => Some(string_views(v@)),
                None => None,
            },
        }
    }
}

/// What to do with one line read in JSON-RPC mode.
#[derive(Debug)]
pub enum RpcAction {
    /// A blank line: nothing.
    Skip,
    /// A line that is not JSON, or a request for another method: nothing.
    Ignore,
    /// A `build` request; `id_json` is its id as JSON text (`null` where it
    /// has none), to be echoed in the answer, and `params` what it sets.
    Build { id_json: String, params: BuildParams },
}

/// What is read from a request line: the `method` member where it is a
/// string, the `id` member as JSON text, and from the `params` member the
/// strings `project_dir`, `root_module` and `cc_path` and the array
/// `cc_args` (each element a string or not).
pub struct JsonRequest {
    pub method: Option<String>,
    pub id: String,
    pub project_dir: Option<String>,
    pub root_module: Option<String>,
    pub cc_path: Option<String>,
    pub cc_args: Option<Vec<Option<String>>>,
}

/// The view of what is read from a request line.
pub struct JsonRequestView {
    pub method: Option<Seq<char>>,
    pub id: Seq<char>,
    pub project_dir: Option<Seq<char>>,
    pub root_module: Option<Seq<char>>,
    pub cc_path: Option<Seq<char>>,
    pub cc_args: Option<Seq<Option<Seq<char>>>>,
}

impl View for JsonRequest {
    type V = JsonRequestView;

    open spec fn view(&self) -> JsonRequestView {
        JsonRequestView {
            method: opt_view(self.method),
            id: self.id@,
            project_dir: opt_view(self.project_dir),
            root_module: opt_view(self.root_module),
            cc_path: opt_view(self.cc_path),
            cc_args: match self.cc_args {
                Some(v) => Some(v@.map_values(|o: Option<String>| opt_view(o))),
                None => None,
            },
        }
    }
}

/// What `serde_json` reads from a request line: `None` where the line is not
/// a JSON value; otherwise its members as `JsonRequest` describes them.
pub uninterp spec fn json_request(line: Seq<char>) -> Option<JsonRequestView>;

/// `serde_json::from_str::<serde_json::Value>` on a request line, then the
/// members picked out by indexing (a missing member gives `null`): strings
/// by `Value::as_str`, the array by `Value::as_array`, and the `id` member
/// written back as JSON (`Value`'s `Display`). Stated: the result is the
/// named function of the line. Unstated: JSON syntax and `serde_json`'s
/// compact writing of values.
#[verifier::external_body]
fn parse_json_request(line: &str) -> (r: Option<JsonRequest>)
    ensures
        match r {
            Some(q) => json_request(line@) == Some(q@),
            None => json_request(line@) is None,
        },
{
    match serde_json::from_str::<serde_json::Value>(line) {
        Ok(v) => {
            let text = |x: &serde_json::Value| x.as_str().map(String::from);
            let p = &v["params"];
            Some(JsonRequest {
                method: text(&v["method"]),
                id: v["id"].to_string(),
                project_dir: text(&p["project_dir"]),
                root_module: text(&p["root_module"]),
                cc_path: text(&p["cc_path"]),
                cc_args: p["cc_args"].as_array().map(|a| a.iter().map(text).collect()),
            })
        },
        Err(_) => None,
    }
}

/// The string elements of an array, in order (the others are left out).
pub open spec fn string_items(s: Seq<Option<Seq<char>>>) -> Seq<Seq<char>>
    decreases s.len(),
{
    if s.len() == 0 {
        seq![]
    } else {
        match s.last() {
            Some(x) => string_items(s.drop_last()).push(x),
            None => string_items(s.drop_last()),
        }
    }
}

/// The build settings of a request.
pub open spec fn params_of(q: JsonRequestView) -> BuildParamsView {
    BuildParamsView {
        project_dir: q.project_dir,
        root_module: q.root_module,
        cc_path: q.cc_path,
        cc_args: match q.cc_args {
            Some(a) => Some(string_items(a)),
            None => None,
        },
    }
}

/// Whether a request asks for a build.
pub open spec fn is_build(q: JsonRequestView) -> bool {
    q.method == Some("build"@)
}

/// Keeps the string elements of an array.
fn keep_strings(a: Vec<Option<String>>) -> (r: Vec<String>)
    ensures
        string_views(r@) == string_items(a@.map_values(|o: Option<String>| opt_view(o))),
{
    let ghost av = a@.map_values(|o: Option<String>| opt_view(o));
    let mut r: Vec<String> = Vec::new();
    let mut i: usize = 0;
    while i < a.len()
        invariant
            i <= a@.len(),
            av == a@.map_values(|o: Option<String>| opt_view(o)),
            string_views(r@) == string_items(av.take(i as int)),
        decreases a@.len() - i,
    {
        assert(av.take(i + 1).drop_last() =~= av.take(i as int));
        assert(av.take(i + 1).last() == opt_view(a@[i as int]));
        match &a[i] {
            Some(x) => {
                let ghost old_r = r@;
                r.push(copy_string(x));
                assert(string_views(r@) =~= string_views(old_r).push(x@));
            },
            None => {},
        }
        i = i + 1;
    }
    assert(av.take(i as int) =~= av);
    r
}

/// What a non-blank line asks for, given what was read from it: a build,
/// with the settings of its `params`, where it is a request whose method is
/// `build`; otherwise nothing.
pub fn action_for_request(req: Option<JsonRequest>) -> (r: RpcAction)
    ensures
        match r {
            RpcAction::Build { id_json, params } => {
                &&& req matches Some(q)
                &&& is_build(q@)
                &&& id_json@ == q@.id
                &&& params@ == params_of(q@)
            },
            RpcAction::Ignore => !(req matches Some(q) && is_build(q@)),
            RpcAction::Skip => false,
        },
{
    match req {
        Some(q) => {
            let ghost qv = q@;
            let JsonRequest { method, id, project_dir, root_module, cc_path, cc_args } = q;
            let build = match &method {
                Some(m) => chars_eq(&chars_of(m.as_str()), &chars_of("build")),
                None => false,
            };
            if build {
                let args = match cc_args {
                    Some(a) => Some(keep_strings(a)),
                    None => None,
                };
                let params = BuildParams { project_dir, root_module, cc_path, cc_args: args };
                assert(params@ == params_of(qv));
                RpcAction::Build { id_json: id, params }
            } else {
                RpcAction::Ignore
            }
        },
        None => RpcAction::Ignore,
    }
}

/// What to do with one input line: skip it where it is blank; otherwise
/// build where it is a JSON request whose method is `build`, with its id
/// and its settings, and ignore it where it is not.
pub fn rpc_action(line: &str) -> (r: RpcAction)
    ensures
        match r {
            RpcAction::Skip => trim_spec(line@).len() == 0,
            RpcAction::Ignore => trim_spec(line@).len() > 0 && !(json_request(line@) matches Some(
                q,
            ) && is_build(q)),
            RpcAction::Build { id_json, params } => {
                &&& trim_spec(line@).len() > 0
                &&& json_request(line@) matches Some(q)
                &&& is_build(q)
                &&& id_json@ == q.id
                &&& params@ == params_of(q)
            },
        },
{
    let t = trim(&chars_of(line));
    if t.len() == 0 {
        return RpcAction::Skip;
    }
    let req = parse_json_request(line);
    action_for_request(req)
}

/// The settings of one build in JSON-RPC mode.
pub struct BuildSettings {
    pub project_dir: String,
    pub output_dir: String,
    pub root_module: Option<String>,
    pub cc_path: Option<String>,
    pub cc_args: Vec<String>,
}

/// A setting of the request where it sets one, else that of the command
/// line.
pub open spec fn or_else(p: Option<Seq<char>>, d: Seq<char>) -> Seq<char> {
    match p {
        Some(x) => x,
        None => d,
    }
}

/// An optional setting of the request where it sets one, else that of the
/// command line.
pub open spec fn or_else_opt(p: Option<Seq<char>>, d: Option<Seq<char>>) -> Option<Seq<char>> {
    match p {
        Some(x) => Some(x),
        None => d,
    }
}

fn pick(p: Option<String>, d: &str) -> (r: String)
    ensures
        r@ == or_else(opt_view(p), d@),
{
    match p {
        Some(x) => x,
        None => string_of(&chars_of(d)),
    }
}

fn pick_opt(p: Option<String>, d: Option<&str>) -> (r: Option<String>)
    ensures
        opt_view(r) == or_else_opt(opt_view(p), opt_str_view(d)),
{
    match p {
        Some(x) => Some(x),
        None => match d {
            Some(y) => Some(string_of(&chars_of(y))),
            None => None,
        },
    }
}

/// The settings of a build request: each setting of its `params` where it
/// sets one, else the one given on the command line; the output directory
/// is the one given on the command line, else `build` inside the project
/// directory chosen.
pub fn build_settings(
    params: BuildParams,
    project_dir: &str,
    output: Option<&str>,
    root_module: Option<&str>,
    cc_path: Option<&str>,
    cc_args: &Vec<String>,
) -> (r: BuildSettings)
    ensures
        r.project_dir@ == or_else(params@.project_dir, project_dir@),
        r.output_dir@ == crate::cli::output_dir_spec(r.project_dir@, opt_str_view(output)),
        opt_view(r.root_module) == or_else_opt(params@.root_module, opt_str_view(root_module)),
        opt_view(r.cc_path) == or_else_opt(params@.cc_path, opt_str_view(cc_path)),
        string_views(r.cc_args@) == match params@.cc_args {
            Some(a) => a,
            None => string_views(cc_args@),
        },
{
    let ghost pv = params@;
    let BuildParams { project_dir: pd, root_module: rm, cc_path: cp, cc_args: ca } = params;
    let project = pick(pd, project_dir);
    let out = crate::cli::output_dir(project.as_str(), output);
    let root = pick_opt(rm, root_module);
    let cc = pick_opt(cp, cc_path);
    let args = match ca {
        Some(a) => a,
        None => {
            let mut v: Vec<String> = Vec::new();
            let mut i: usize = 0;
            while i < cc_args.len()
                invariant
                    i <= cc_args@.len(),
                    string_views(v@) == string_views(cc_args@).take(i as int),
                decreases cc_args@.len() - i,
            {
                let ghost old_v = v@;
                v.push(copy_string(&cc_args[i]));
                assert(string_views(v@) =~= string_views(old_v).push(cc_args@[i as int]@));
                i = i + 1;
                assert(string_views(v@) =~= string_views(cc_args@).take(i as int));
            }
            assert(string_views(cc_args@).take(i as int) =~= string_views(cc_args@));
            v
        },
    };
    BuildSettings { project_dir: project, output_dir: out, root_module: root, cc_path: cc, cc_args: args }
}

/// Whether a progress report at `pct` is sent after the last one sent at
/// `last` (only when the percentage changed), and the new last percentage.
pub fn progress_step(last: usize, pct: usize) -> (r: (usize, bool))
    ensures
        r.1 == (pct != last),
        r.0 == if pct != last {
            pct
        } else {
            last
        },
{
    if pct != last {
        (pct, true)
    } else {
        (last, false)
    }
}

/// The JSON string that `serde_json` writes for a text: the text in double
/// quotes, with its special characters escaped.
pub uninterp spec fn json_string_text(s: Seq<char>) -> Seq<char>;

/// A text in which nothing needs escaping in JSON: no `"`, no `\` and no
/// control character below U+0020.
pub open spec fn json_plain(s: Seq<char>) -> bool {
    forall|i: int|
        0 <= i < s.len() ==> #[trigger] s[i] != '"' && s[i] != '\\' && (s[i] as u32) >= 0x20
}

/// `serde_json::to_string` of a string slice. Stated: the result is the
/// named function of the text, and a text with nothing to escape is written
/// as itself between double quotes (the escape table of `serde_json`'s
/// writer covers only `"`, `\` and the control characters below U+0020).
/// Unstated: the escape sequences it writes.
#[verifier::external_body]
fn json_quote(s: &str) -> (r: String)
    ensures
        r@ == json_string_text(s@),
        json_plain(s@) ==> r@ == seq!['"'] + s@ + seq!['"'],
{
    serde_json::to_string(s).unwrap_or_default()
}

/// The progress notification for `pct` percent with message `msg`, as
/// `serde_json` writes it (members in key order, no spaces).
pub open spec fn progress_notification_spec(pct: nat, msg: Seq<char>) -> Seq<char> {
    "{\"jsonrpc\":\"2.0\",\"method\":\"$/progress\",\"params\":{\"message\":"@ + json_string_text(
        msg,
    ) + ",\"percent\":"@ + decimal(pct) + "}}"@
}

/// Writes a progress notification.
pub fn progress_notification(pct: usize, msg: &str) -> (r: String)
    ensures
        r@ == progress_notification_spec(pct as nat, msg@),
{
    let mut out: Vec<char> = Vec::new();
    append_str(&mut out, "{\"jsonrpc\":\"2.0\",\"method\":\"$/progress\",\"params\":{\"message\":");
    let q = json_quote(msg);
    append_str(&mut out, q.as_str());
    append_str(&mut out, ",\"percent\":");
    push_decimal(&mut out, pct);
    append_str(&mut out, "}}");
    string_of(&out)
}

/// The answer to a build request with id `id_json`: success, or the error
/// with its message, as `serde_json` writes it (members in key order, no
/// spaces).
pub open spec fn rpc_response_spec(id_json: Seq<char>, error: Option<Seq<char>>) -> Seq<char> {
    match error {
        None => "{\"id\":"@ + id_json + ",\"jsonrpc\":\"2.0\",\"result\":{\"success\":true}}"@,
        Some(m) => "{\"error\":{\"code\":-32000,\"message\":"@ + json_string_text(m)
            + "},\"id\":"@ + id_json + ",\"jsonrpc\":\"2.0\"}"@,
    }
}

/// Writes the answer to a build request.
pub fn rpc_response(id_json: &str, error: Option<&str>) -> (r: String)
    ensures
        r@ == rpc_response_spec(id_json@, opt_str_view(error)),
{
    let mut out: Vec<char> = Vec::new();
    match error {
        None => {
            append_str(&mut out, "{\"id\":");
            append_str(&mut out, id_json);
            append_str(&mut out, ",\"jsonrpc\":\"2.0\",\"result\":{\"success\":true}}");
        },
        Some(m) => {
            append_str(&mut out, "{\"error\":{\"code\":-32000,\"message\":");
            let q = json_quote(m);
            append_str(&mut out, q.as_str());
            append_str(&mut out, "},\"id\":");
            append_str(&mut out, id_json);
            append_str(&mut out, ",\"jsonrpc\":\"2.0\"}");
        },
    }
    string_of(&out)
}

} // verus!
