//! System process discoverer: parses the host's process listing to find
//! assistant processes that were not started through this system.
//!
//! The listing format is one process per line: a pid, five tokens of start
//! time, then the command line. A line qualifies when it mentions the
//! assistant executable and is not one of the excluded helper processes;
//! from the command part a resumed-session id and a model id are recovered
//! by flag, with a fixed baseline model when the flag is absent. Discovery
//! is best-effort: running the listing mechanism, and the wall-clock
//! fallback for the start time, stay with the caller, which hands the raw
//! text and the current time in.

use vstd::prelude::*;

use crate::model::{ProcessRecord, ProcessType};
use crate::strutil::{
    chars_of, contains_seq, contains_sub, find_index, find_sub, join_from, join_space,
    lemma_find_from_found, parse_u32, spec_parse_u32, split_lines, split_lines_vec,
    split_tokens, string_of, suffix_from, token_views, tokens_of,
};

verus! {

/// The model reported when the command line names none.
pub open spec fn default_model() -> Seq<char> {
    "sonnet"@
}

/// The character for one decimal digit value.
pub open spec fn digit_char(d: int) -> char {
    ((('0' as u8) + d as u8) as char)
}

/// The decimal rendering of a non-negative number.
pub open spec fn dec_str(n: int) -> Seq<char>
    decreases n,
{
    if n < 10 {
        seq![digit_char(n)]
    } else {
        dec_str(n / 10).push(digit_char(n % 10))
    }
}

/// Renders a number in decimal.
pub fn u32_to_dec(n: u32) -> (r: Vec<char>)
    ensures
        r@ == dec_str(n as int),
    decreases n,
{
    if n < 10 {
        let c = ((('0' as u8) + (n as u8)) as char);
        let mut r: Vec<char> = Vec::new();
        r.push(c);
        proof {
            assert(r@ =~= seq![digit_char(n as int)]);
        }
        r
    } else {
        let mut r = u32_to_dec(n / 10);
        let c = ((('0' as u8) + ((n % 10) as u8)) as char);
        r.push(c);
        r
    }
}

/// The value named right after the first occurrence of a flag: the second
/// whitespace token of the command line's suffix from the flag on, as the
/// positional flag grammar of the listing has it.
pub open spec fn flag_value(cmd: Seq<char>, flag: Seq<char>) -> Option<Seq<char>> {
    match find_index(cmd, flag) {
        None => None,
        Some(i) => {
            let parts = tokens_of(cmd.skip(i));
            if parts.len() >= 2 {
                Some(parts[1])
            } else {
                None
            }
        },
    }
}

/// Looks a flag's value up in a command line.
pub fn flag_value_of(cmd: &Vec<char>, flag: &Vec<char>) -> (r: Option<Vec<char>>)
    ensures
        r is Some <==> flag_value(cmd@, flag@) is Some,
        r matches Some(v) ==> flag_value(cmd@, flag@) == Some(v@),
{
    match find_sub(cmd, flag) {
        None => None,
        Some(i) => {
            proof {
                lemma_find_from_found(cmd@, flag@, 0);
            }
            let rest = suffix_from(cmd, i);
            let mut parts = split_tokens(&rest);
            if parts.len() >= 2 {
                let ghost parts0 = parts@;
                let tok = parts.remove(1);
                proof {
                    assert(token_views(parts0)[1] == parts0[1]@);
                }
                Some(tok)
            } else {
                None
            }
        },
    }
}

/// What one qualifying listing line yields.
pub struct ParsedProcessLine {
    pub pid: u32,
    pub session_id: Option<Seq<char>>,
    pub model: Seq<char>,
}

/// Parses one listing line. A line is discarded when it does not mention
/// the assistant executable, names an excluded helper process, has fewer
/// than seven tokens, has a non-numeric pid, or has a command part that
/// does not hold the executable's path.
pub open spec fn parse_line_spec(line: Seq<char>) -> Option<ParsedProcessLine> {
    if !contains_seq(line, "assistant"@) {
        None
    } else if contains_seq(line, "mcp-server"@) || contains_seq(line, "worker-service"@) {
        None
    } else {
        let toks = tokens_of(line);
        if toks.len() < 7 {
            None
        } else {
            match spec_parse_u32(toks[0]) {
                None => None,
                Some(pid) => {
                    let cmd = join_space(toks.skip(6));
                    if !contains_seq(cmd, "/assistant"@) && !contains_seq(cmd, "\\assistant"@) {
                        None
                    } else {
                        Some(
                            ParsedProcessLine {
                                pid,
                                session_id: flag_value(cmd, "--resume"@),
                                model: match flag_value(cmd, "--model"@) {
                                    Some(m) => m,
                                    None => default_model(),
                                },
                            },
                        )
                    }
                },
            }
        }
    }
}

/// The record a qualifying line synthesizes: the pid doubles as the run
/// id, the variant is an interactive session whose id falls back to
/// `unknown-<pid>`, the project path is not recoverable, and the start
/// time is the caller's best effort.
pub open spec fn record_matches_line(rec: ProcessRecord, p: ParsedProcessLine, now: i64) -> bool {
    &&& rec.run_id == p.pid as i64
    &&& rec.pid == p.pid
    &&& rec.started_at == now
    &&& rec.project_path@ == "Unknown"@
    &&& rec.task@ == "Discovered running process"@
    &&& rec.model@ == p.model
    &&& (rec.process_type matches ProcessType::AssistantSession { session_id } && session_id@
        == (match p.session_id {
        Some(s) => s,
        None => "unknown-"@ + dec_str(p.pid as int),
    }))
}

/// Parses one listing line into a record, or discards it.
pub fn parse_listing_line(line: &Vec<char>, now: i64) -> (r: Option<ProcessRecord>)
    ensures
        r is Some <==> parse_line_spec(line@) is Some,
        r matches Some(rec) ==> record_matches_line(rec, parse_line_spec(line@)->0, now),
{
    let assistant_pat = chars_of("assistant");
    if !contains_sub(line, &assistant_pat) {
        return None;
    }
    let mcp_pat = chars_of("mcp-server");
    let worker_pat = chars_of("worker-service");
    if contains_sub(line, &mcp_pat) || contains_sub(line, &worker_pat) {
        return None;
    }
    let toks = split_tokens(line);
    if toks.len() < 7 {
        return None;
    }
    proof {
        assert(token_views(toks@)[0] == toks@[0]@);
    }
    let pid = match parse_u32(&toks[0]) {
        Some(p) => p,
        None => {
            return None;
        },
    };
    let cmd = join_from(&toks, 6);
    proof {
        assert(token_views(toks@).skip(6) =~= tokens_of(line@).skip(6));
    }
    let slash_pat = chars_of("/assistant");
    let backslash_pat = chars_of("\\assistant");
    if !contains_sub(&cmd, &slash_pat) && !contains_sub(&cmd, &backslash_pat) {
        return None;
    }
    let resume_pat = chars_of("--resume");
    let model_pat = chars_of("--model");
    let session_id: String = match flag_value_of(&cmd, &resume_pat) {
        Some(s) => string_of(&s),
        None => {
            let mut u = chars_of("unknown-");
            let mut digits = u32_to_dec(pid);
            u.append(&mut digits);
            string_of(&u)
        },
    };
    let model: String = match flag_value_of(&cmd, &model_pat) {
        Some(m) => string_of(&m),
        None => String::from_str("sonnet"),
    };
    Some(
        ProcessRecord {
            run_id: pid as i64,
            pid,
            process_type: ProcessType::AssistantSession { session_id },
            started_at: now,
            project_path: String::from_str("Unknown"),
            task: String::from_str("Discovered running process"),
            model,
        },
    )
}

/// The parses of the qualifying lines, in listing order.
pub open spec fn parsed_lines(lines: Seq<Seq<char>>) -> Seq<ParsedProcessLine>
    decreases lines.len(),
{
    if lines.len() == 0 {
        Seq::empty()
    } else {
        (match parse_line_spec(lines[0]) {
            Some(p) => seq![p],
            None => Seq::empty(),
        }) + parsed_lines(lines.drop_first())
    }
}

/// Each synthesized record matches the qualifying line it came from, in
/// order.
pub open spec fn records_match(
    rs: Seq<ProcessRecord>,
    ps: Seq<ParsedProcessLine>,
    now: i64,
) -> bool {
    &&& rs.len() == ps.len()
    &&& forall|k: int| 0 <= k < rs.len() ==> record_matches_line(#[trigger] rs[k], ps[k], now)
}

/// Parses a whole process listing: one record per qualifying line, in
/// listing order, each synthesized as the line says, with `now` as the
/// best-effort start time. A listing with no qualifying line yields the
/// empty set.
pub fn parse_process_listing(output: &str, now: i64) -> (r: Vec<ProcessRecord>)
    ensures
        records_match(r@, parsed_lines(split_lines(output@)), now),
{
    let chars = chars_of(output);
    let lines = split_lines_vec(&chars);
    let n = lines.len();
    let mut out: Vec<ProcessRecord> = Vec::new();
    let mut i: usize = 0;
    proof {
        assert(token_views(lines@).skip(0) =~= token_views(lines@));
    }
    while i < n
        invariant
            i <= n,
            n == lines@.len(),
            token_views(lines@) == split_lines(output@),
            records_match(out@, parsed_lines(token_views(lines@).take(i as int)), now),
            parsed_lines(token_views(lines@)) == parsed_lines(
                token_views(lines@).take(i as int),
            ) + parsed_lines(token_views(lines@).skip(i as int)),
        decreases n - i,
    {
        let ghost views = token_views(lines@);
        let ghost head = (match parse_line_spec(views[i as int]) {
            Some(p) => seq![p],
            None => Seq::<ParsedProcessLine>::empty(),
        });
        proof {
            assert(views.skip(i as int)[0] == views[i as int]);
            assert(views.skip(i as int).drop_first() =~= views.skip(i + 1));
            assert(views.take(i + 1) =~= views.take(i as int).push(views[i as int]));
            lemma_parsed_lines_snoc(views.take(i as int), views[i as int]);
            assert(parsed_lines(views.skip(i as int)) == head + parsed_lines(
                views.skip(i + 1),
            ));
            assert(parsed_lines(views.take(i + 1)) == parsed_lines(views.take(i as int))
                + head);
            assert(parsed_lines(views) =~= parsed_lines(views.take(i + 1)) + parsed_lines(
                views.skip(i + 1),
            ));
            assert(lines@[i as int]@ == views[i as int]);
        }
        let ghost out0 = out@;
        let ghost ps0 = parsed_lines(views.take(i as int));
        match parse_listing_line(&lines[i], now) {
            Some(rec) => {
                out.push(rec);
                proof {
                    let ps1 = parsed_lines(views.take(i + 1));
                    assert(ps1 =~= ps0 + head);
                    assert forall|k: int| 0 <= k < out@.len() implies record_matches_line(
                        #[trigger] out@[k],
                        ps1[k],
                        now,
                    ) by {
                        if k < out0.len() {
                            assert(out@[k] == out0[k]);
                            assert(ps1[k] == ps0[k]);
                        } else {
                            assert(out@[k] == rec);
                            assert(ps1[k] == parse_line_spec(views[i as int])->0);
                        }
                    }
                }
            },
            None => {
                proof {
                    assert(parsed_lines(views.take(i + 1)) =~= ps0);
                }
            },
        }
        i += 1;
    }
    proof {
        assert(token_views(lines@).take(n as int) =~= token_views(lines@));
    }
    out
}

/// Appending one line parses as the lines did, then the line.
proof fn lemma_parsed_lines_snoc(lines: Seq<Seq<char>>, last: Seq<char>)
    ensures
        parsed_lines(lines.push(last)) == parsed_lines(lines) + (match parse_line_spec(last) {
            Some(p) => seq![p],
            None => Seq::<ParsedProcessLine>::empty(),
        }),
    decreases lines.len(),
{
    let whole = lines.push(last);
    assert(parsed_lines(Seq::<Seq<char>>::empty()) == Seq::<ParsedProcessLine>::empty());
    if lines.len() == 0 {
        assert(whole[0] == last);
        assert(whole.drop_first() =~= Seq::<Seq<char>>::empty());
        match parse_line_spec(last) {
            Some(p) => {
                assert(parsed_lines(whole) =~= parsed_lines(lines) + seq![p]);
            },
            None => {
                assert(parsed_lines(whole) =~= parsed_lines(lines));
            },
        }
    } else {
        assert(whole[0] == lines[0]);
        assert(whole.drop_first() =~= lines.drop_first().push(last));
        lemma_parsed_lines_snoc(lines.drop_first(), last);
        assert(parsed_lines(whole) =~= parsed_lines(lines) + (match parse_line_spec(last) {
            Some(p) => seq![p],
            None => Seq::<ParsedProcessLine>::empty(),
        }));
    }
}

} // verus!
