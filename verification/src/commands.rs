//! Command handling of the streaming layer: validating the inbound command
//! tag, deriving the subprocess's argument list from it, resolving the
//! `agent-<n>` session alias through a run-transcript file, and locating
//! the assistant executable.
//!
//! Everything here computes from plain values; reading transcript files
//! and spawning the subprocess stay with the caller.

use vstd::prelude::*;

use crate::response::ExecutionRequest;
use crate::strutil::{
    chars_of, find_index, find_sub, lemma_find_from_found, starts_with,
    starts_with_seq, string_of, suffix_from,
};

verus! {

/// The three structured commands a session accepts. Any other tag is
/// rejected with an error event; the connection stays open.
#[derive(Clone, Copy, PartialEq, Eq, Structural, Debug)]
pub enum CommandKind {
    /// Start a fresh run with a prompt.
    Execute,
    /// Continue the most recent conversation in the project.
    Continue,
    /// Resume a prior session by id.
    Resume,
}

/// Validates the inbound command tag.
pub fn parse_command_type(tag: &String) -> (r: Option<CommandKind>)
    ensures
        r == (if tag@ == "execute"@ {
            Some(CommandKind::Execute)
        } else if tag@ == "continue"@ {
            Some(CommandKind::Continue)
        } else if tag@ == "resume"@ {
            Some(CommandKind::Resume)
        } else {
            None
        }),
{
    if *tag == String::from_str("execute") {
        Some(CommandKind::Execute)
    } else if *tag == String::from_str("continue") {
        Some(CommandKind::Continue)
    } else if *tag == String::from_str("resume") {
        Some(CommandKind::Resume)
    } else {
        None
    }
}

/// The flags shared by every command: print mode with the prompt, the
/// model, line-delimited JSON output, and the fixed mode switches.
pub open spec fn common_args(prompt: Seq<char>, model: Seq<char>) -> Seq<Seq<char>> {
    seq![
        "-p"@,
        prompt,
        "--model"@,
        model,
        "--output-format"@,
        "stream-json"@,
        "--verbose"@,
        "--dangerously-skip-permissions"@,
    ]
}

/// The views of a vector of strings.
pub open spec fn arg_views(args: Seq<String>) -> Seq<Seq<char>> {
    args.map_values(|s: String| s@)
}

/// The argument list of a fresh `execute` run.
pub fn execute_args(prompt: &String, model: &String) -> (r: Vec<String>)
    ensures
        arg_views(r@) == common_args(prompt@, model@),
{
    let mut r: Vec<String> = Vec::new();
    r.push(String::from_str("-p"));
    r.push(prompt.clone());
    r.push(String::from_str("--model"));
    r.push(model.clone());
    r.push(String::from_str("--output-format"));
    r.push(String::from_str("stream-json"));
    r.push(String::from_str("--verbose"));
    r.push(String::from_str("--dangerously-skip-permissions"));
    proof {
        assert(arg_views(r@) =~= common_args(prompt@, model@));
    }
    r
}

/// The argument list of a `continue` run: the continue flag, then the
/// common flags.
pub fn continue_args(prompt: &String, model: &String) -> (r: Vec<String>)
    ensures
        arg_views(r@) == seq!["-c"@] + common_args(prompt@, model@),
{
    let mut r: Vec<String> = Vec::new();
    r.push(String::from_str("-c"));
    r.push(String::from_str("-p"));
    r.push(prompt.clone());
    r.push(String::from_str("--model"));
    r.push(model.clone());
    r.push(String::from_str("--output-format"));
    r.push(String::from_str("stream-json"));
    r.push(String::from_str("--verbose"));
    r.push(String::from_str("--dangerously-skip-permissions"));
    proof {
        assert(arg_views(r@) =~= seq!["-c"@] + common_args(prompt@, model@));
    }
    r
}

/// The argument list of a `resume` run: the resolved session id, then the
/// common flags.
pub fn resume_args(session_id: &String, prompt: &String, model: &String) -> (r: Vec<String>)
    ensures
        arg_views(r@) == seq!["--resume"@, session_id@] + common_args(prompt@, model@),
{
    let mut r: Vec<String> = Vec::new();
    r.push(String::from_str("--resume"));
    r.push(session_id.clone());
    r.push(String::from_str("-p"));
    r.push(prompt.clone());
    r.push(String::from_str("--model"));
    r.push(model.clone());
    r.push(String::from_str("--output-format"));
    r.push(String::from_str("stream-json"));
    r.push(String::from_str("--verbose"));
    r.push(String::from_str("--dangerously-skip-permissions"));
    proof {
        assert(arg_views(r@) =~= seq!["--resume"@, session_id@] + common_args(
            prompt@,
            model@,
        ));
    }
    r
}

/// A synthetic session alias of the form `agent-<n>`, which names an agent
/// run's transcript rather than a real session id.
pub open spec fn is_agent_alias(s: Seq<char>) -> bool {
    starts_with_seq(s, "agent-"@)
}

/// Whether a session id is an agent alias.
pub fn session_is_agent_alias(s: &String) -> (b: bool)
    ensures
        b == is_agent_alias(s@),
{
    let v = chars_of(s.as_str());
    let p = chars_of("agent-");
    starts_with(&v, &p)
}

/// The sequence with every trailing slash removed.
pub open spec fn trim_trailing_slashes(s: Seq<char>) -> Seq<char>
    decreases s.len(),
{
    if s.len() > 0 && s.last() == '/' {
        trim_trailing_slashes(s.drop_last())
    } else {
        s
    }
}

/// The sequence with every leading slash removed.
pub open spec fn trim_leading_slashes(s: Seq<char>) -> Seq<char>
    decreases s.len(),
{
    if s.len() > 0 && s[0] == '/' {
        trim_leading_slashes(s.drop_first())
    } else {
        s
    }
}

/// Path separators flattened to hyphens, as the transcript directory
/// naming scheme has it.
pub open spec fn flatten_separators(s: Seq<char>) -> Seq<char> {
    s.map_values(
        |c: char|
            if c == '/' || c == '\\' {
                '-'
            } else {
                c
            },
    )
}

/// The transcript file an agent alias names inside the project directory:
/// `<project>/agent-<n>.jsonl`, with trailing slashes of the project path
/// dropped.
pub open spec fn agent_transcript_path_spec(project: Seq<char>, alias: Seq<char>) -> Seq<char> {
    trim_trailing_slashes(project) + "/agent-"@ + alias.skip(6) + ".jsonl"@
}

/// Builds the in-project transcript path of an agent alias.
pub fn agent_transcript_path(project: &String, alias: &String) -> (r: String)
    requires
        is_agent_alias(alias@),
    ensures
        r@ == agent_transcript_path_spec(project@, alias@),
{
    let pv = chars_of(project.as_str());
    let mut cut = pv.len();
    proof {
        assert(pv@.take(pv@.len() as int) =~= pv@);
    }
    while cut > 0 && pv[cut - 1] == '/'
        invariant
            cut <= pv@.len(),
            trim_trailing_slashes(pv@) == trim_trailing_slashes(pv@.take(cut as int)),
        decreases cut,
    {
        proof {
            assert(pv@.take(cut as int).last() == pv@[cut - 1]);
            assert(pv@.take(cut as int).drop_last() =~= pv@.take(cut - 1));
        }
        cut -= 1;
    }
    proof {
        if cut > 0 {
            assert(pv@.take(cut as int).last() == pv@[cut - 1]);
        }
        assert(trim_trailing_slashes(pv@.take(cut as int)) == pv@.take(cut as int));
    }
    let mut out: Vec<char> = Vec::new();
    let mut i: usize = 0;
    while i < cut
        invariant
            i <= cut,
            cut <= pv@.len(),
            out@ == pv@.take(cut as int).take(i as int),
        decreases cut - i,
    {
        out.push(pv[i]);
        proof {
            assert(out@ =~= pv@.take(cut as int).take(i + 1));
        }
        i += 1;
    }
    proof {
        assert(pv@.take(cut as int).take(cut as int) =~= pv@.take(cut as int));
    }
    let mut mid = chars_of("/agent-");
    out.append(&mut mid);
    let av = chars_of(alias.as_str());
    proof {
        reveal_strlit("agent-");
        assert(av@.len() >= 6);
    }
    let mut tail = suffix_from(&av, 6);
    out.append(&mut tail);
    let mut ext = chars_of(".jsonl");
    out.append(&mut ext);
    string_of(&out)
}

/// The transcript file a non-resolved alias may name under the home
/// directory: `<home>/.assistant/projects/<flattened-project>/<alias>.jsonl`,
/// with leading slashes of the project path dropped and its separators
/// flattened to hyphens.
pub open spec fn home_transcript_path_spec(
    home: Seq<char>,
    project: Seq<char>,
    alias: Seq<char>,
) -> Seq<char> {
    home + "/.assistant/projects/"@ + flatten_separators(trim_leading_slashes(project)) + "/"@
        + alias + ".jsonl"@
}

/// Builds the home-directory transcript path of a session alias.
pub fn home_transcript_path(home: &String, project: &String, alias: &String) -> (r: String)
    ensures
        r@ == home_transcript_path_spec(home@, project@, alias@),
{
    let pv = chars_of(project.as_str());
    let n = pv.len();
    let mut start: usize = 0;
    proof {
        assert(pv@.skip(0) =~= pv@);
    }
    while start < n && pv[start] == '/'
        invariant
            start <= n,
            n == pv@.len(),
            trim_leading_slashes(pv@) == trim_leading_slashes(pv@.skip(start as int)),
        decreases n - start,
    {
        proof {
            assert(pv@.skip(start as int)[0] == pv@[start as int]);
            assert(pv@.skip(start as int).drop_first() =~= pv@.skip(start + 1));
        }
        start += 1;
    }
    proof {
        if start < n {
            assert(pv@.skip(start as int)[0] == pv@[start as int]);
        }
        assert(trim_leading_slashes(pv@.skip(start as int)) == pv@.skip(start as int));
    }
    let mut out = chars_of(home.as_str());
    let mut mid = chars_of("/.assistant/projects/");
    out.append(&mut mid);
    let ghost pre = out@;
    let mut i: usize = start;
    while i < n
        invariant
            start <= i <= n,
            n == pv@.len(),
            out@ == pre + flatten_separators(pv@.subrange(start as int, i as int)),
        decreases n - i,
    {
        let c = pv[i];
        if c == '/' || c == '\\' {
            out.push('-');
        } else {
            out.push(c);
        }
        proof {
            assert(out@ =~= pre + flatten_separators(
                pv@.subrange(start as int, i + 1),
            ));
        }
        i += 1;
    }
    proof {
        assert(pv@.subrange(start as int, n as int) =~= pv@.skip(start as int));
    }
    let mut sep = chars_of("/");
    out.append(&mut sep);
    let mut av = chars_of(alias.as_str());
    out.append(&mut av);
    let mut ext = chars_of(".jsonl");
    out.append(&mut ext);
    string_of(&out)
}

/// The marker whose quoted value inside a transcript names the real
/// session.
pub open spec fn session_id_marker() -> Seq<char> {
    "\"sessionId\":\""@
}

/// The embedded session id of a transcript: the text between the first
/// occurrence of the marker and the next quote, if both are there.
pub open spec fn extract_session_uuid_spec(content: Seq<char>) -> Option<Seq<char>> {
    match find_index(content, session_id_marker()) {
        None => None,
        Some(p) => {
            let rest = content.skip(p + 13);
            match find_index(rest, "\""@) {
                None => None,
                Some(e) => Some(rest.take(e)),
            }
        },
    }
}

/// Extracts the embedded session id of a transcript, if any.
pub fn extract_session_uuid(content: &String) -> (r: Option<String>)
    ensures
        r is Some <==> extract_session_uuid_spec(content@) is Some,
        r matches Some(u) ==> extract_session_uuid_spec(content@) == Some(u@),
{
    let cv = chars_of(content.as_str());
    let marker = chars_of("\"sessionId\":\"");
    proof {
        reveal_strlit("\"sessionId\":\"");
        assert(session_id_marker().len() == 13);
    }
    match find_sub(&cv, &marker) {
        None => None,
        Some(p) => {
            let cv_len = cv.len();
            proof {
                lemma_find_from_found(cv@, marker@, 0);
                reveal_strlit("\"sessionId\":\"");
                assert(marker@.len() == 13);
                assert(p + 13 <= cv_len);
            }
            let rest = suffix_from(&cv, p + 13);
            let quote = chars_of("\"");
            match find_sub(&rest, &quote) {
                None => None,
                Some(e) => {
                    let mut val = rest;
                    proof {
                        lemma_find_from_found(val@, quote@, 0);
                        reveal_strlit("\"");
                    }
                    val.truncate(e);
                    Some(string_of(&val))
                },
            }
        },
    }
}

/// The session id a `resume` command actually uses. A plain id passes
/// through. An agent alias is resolved through the in-project transcript
/// when that could be read, else through the home-directory transcript
/// when that could be read, else it passes through unchanged; a readable
/// transcript without an embedded id also leaves the alias unchanged.
pub open spec fn resolved_session_spec(
    alias: Seq<char>,
    primary: Option<Seq<char>>,
    fallback: Option<Seq<char>>,
) -> Seq<char> {
    if !is_agent_alias(alias) {
        alias
    } else {
        match primary {
            Some(c) => match extract_session_uuid_spec(c) {
                Some(u) => u,
                None => alias,
            },
            None => match fallback {
                Some(c) => match extract_session_uuid_spec(c) {
                    Some(u) => u,
                    None => alias,
                },
                None => alias,
            },
        }
    }
}

/// Resolves a `resume` session id from the transcript contents the caller
/// could read: `primary` is the in-project transcript, `fallback` the
/// home-directory one, each `None` where reading failed.
pub fn resolve_session_id(
    alias: &String,
    primary: Option<&String>,
    fallback: Option<&String>,
) -> (r: String)
    ensures
        r@ == resolved_session_spec(
            alias@,
            match primary {
                Some(c) => Some(c@),
                None => None,
            },
            match fallback {
                Some(c) => Some(c@),
                None => None,
            },
        ),
{
    if !session_is_agent_alias(alias) {
        return alias.clone();
    }
    let content = match primary {
        Some(c) => Some(c),
        None => fallback,
    };
    match content {
        Some(c) => match extract_session_uuid(c) {
            Some(u) => u,
            None => alias.clone(),
        },
        None => alias.clone(),
    }
}

/// Where the assistant executable is looked for: the bundled binary's
/// path first, then the fixed ordered list of system install locations,
/// ending with the user-local install under the home directory.
pub open spec fn bundled_binary() -> Seq<char> {
    "binaries/assistant-cli-x86_64-unknown-linux-gnu"@
}

/// The system candidate names, in probe order, for a given home directory.
pub open spec fn binary_candidates(home: Seq<char>) -> Seq<Seq<char>> {
    seq![
        "assistant"@,
        "assistant-cli"@,
        "/usr/local/bin/assistant"@,
        "/usr/bin/assistant"@,
        "/opt/homebrew/bin/assistant"@,
        home + "/.local/bin/assistant"@,
    ]
}

/// Relies on `std::path::Path::exists`; the answer depends on the
/// filesystem, so nothing is stated of it.
#[verifier::external_body]
fn path_exists(p: &str) -> bool {
    std::path::Path::new(p).exists()
}

/// Relies on `which::which`: `Ok` exactly when the name resolves to an
/// executable; the answer depends on the environment, so nothing is
/// stated of it.
#[verifier::external_body]
fn which_resolves(name: &str) -> bool {
    which::which(name).is_ok()
}

/// Locates the assistant executable: the bundled binary when it exists on
/// disk, else the first probe-order candidate that resolves, else an
/// error. Which one answers depends on the host, so the contract pins the
/// result to the candidate set and the error text.
pub fn find_assistant_binary(home: &String) -> (r: Result<String, String>)
    ensures
        r matches Ok(p) ==> (p@ == bundled_binary() || binary_candidates(home@).contains(
            p@,
        )),
        r matches Err(e) ==> e@
            == "Assistant binary not found in bundled location or system paths"@,
{
    let bundled = String::from_str("binaries/assistant-cli-x86_64-unknown-linux-gnu");
    if path_exists(bundled.as_str()) {
        return Ok(bundled);
    }
    let mut candidates: Vec<String> = Vec::new();
    candidates.push(String::from_str("assistant"));
    candidates.push(String::from_str("assistant-cli"));
    candidates.push(String::from_str("/usr/local/bin/assistant"));
    candidates.push(String::from_str("/usr/bin/assistant"));
    candidates.push(String::from_str("/opt/homebrew/bin/assistant"));
    let mut local = chars_of(home.as_str());
    let mut rest = chars_of("/.local/bin/assistant");
    local.append(&mut rest);
    candidates.push(string_of(&local));
    proof {
        assert(arg_views(candidates@) =~= binary_candidates(home@));
    }
    let n = candidates.len();
    let mut i: usize = 0;
    while i < n
        invariant
            i <= n,
            n == candidates@.len(),
            arg_views(candidates@) == binary_candidates(home@),
        decreases n - i,
    {
        if which_resolves(candidates[i].as_str()) {
            let ghost k = i as int;
            proof {
                assert(binary_candidates(home@)[k] == candidates@[k]@);
            }
            let found = candidates[i].clone();
            proof {
                assert(binary_candidates(home@).contains(found@));
            }
            return Ok(found);
        }
        i += 1;
    }
    Err(String::from_str("Assistant binary not found in bundled location or system paths"))
}

/// Relies on `uuid::Uuid::new_v4` and its `Display` impl: a fresh random
/// v4 uuid in canonical hyphenated form. The value is random, so nothing
/// is stated of it.
#[verifier::external_body]
pub fn new_session_id() -> String {
    uuid::Uuid::new_v4().to_string()
}

/// The view of an optional string, empty when absent — the default every
/// optional request field falls back to.
pub open spec fn opt_str_view(o: Option<String>) -> Seq<char> {
    match o {
        Some(s) => s@,
        None => Seq::empty(),
    }
}

fn opt_str_or_empty(o: &Option<String>) -> (r: String)
    ensures
        r@ == opt_str_view(*o),
{
    match o {
        Some(s) => s.clone(),
        None => String::new(),
    }
}

/// Decides what one inbound command asks for: the subprocess argument
/// list its tag and fields call for, with absent optional fields
/// defaulting to empty and a `resume` alias resolved through the
/// transcript contents the caller could read — or the rejection text for
/// an unrecognized tag, which costs an error event, never the connection.
pub fn plan_command(
    req: &ExecutionRequest,
    primary_transcript: Option<&String>,
    fallback_transcript: Option<&String>,
) -> (r: Result<Vec<String>, String>)
    ensures
        req.command_type@ == "execute"@ ==> (r matches Ok(a) && arg_views(a@) == common_args(
            req.prompt@,
            opt_str_view(req.model),
        )),
        req.command_type@ == "continue"@ ==> (r matches Ok(a) && arg_views(a@) == seq!["-c"@]
            + common_args(req.prompt@, opt_str_view(req.model))),
        req.command_type@ == "resume"@ ==> (r matches Ok(a) && arg_views(a@) == seq![
            "--resume"@,
            resolved_session_spec(
                opt_str_view(req.session_id),
                match primary_transcript {
                    Some(c) => Some(c@),
                    None => None,
                },
                match fallback_transcript {
                    Some(c) => Some(c@),
                    None => None,
                },
            ),
        ] + common_args(req.prompt@, opt_str_view(req.model))),
        req.command_type@ != "execute"@ && req.command_type@ != "continue"@
            && req.command_type@ != "resume"@ ==> (r matches Err(e) && e@
            == "Unknown command type"@),
{
    proof {
        reveal_strlit("execute");
        reveal_strlit("continue");
        reveal_strlit("resume");
        assert("execute"@.len() == 7);
        assert("continue"@.len() == 8);
        assert("resume"@.len() == 6);
        assert("execute"@ != "continue"@);
        assert("execute"@ != "resume"@ && "continue"@ != "resume"@);
    }
    let model = opt_str_or_empty(&req.model);
    match parse_command_type(&req.command_type) {
        Some(CommandKind::Execute) => Ok(execute_args(&req.prompt, &model)),
        Some(CommandKind::Continue) => Ok(continue_args(&req.prompt, &model)),
        Some(CommandKind::Resume) => {
            let alias = opt_str_or_empty(&req.session_id);
            let resolved = resolve_session_id(&alias, primary_transcript, fallback_transcript);
            Ok(resume_args(&resolved, &req.prompt, &model))
        },
        None => Err(String::from_str("Unknown command type")),
    }
}

} // verus!
