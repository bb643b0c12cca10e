//! The command boundary: the payload formats of the two inbound commands and
//! their resolution to supervisor operations.
//!
//! Both payloads are flat token sequences delimited by `"`. A start payload
//! carries, at its odd token positions, the executable, the working directory
//! and the two caller-supplied tool arguments. A kill payload carries the
//! signal discriminator at token position one and, at position two, the target
//! process id between one enclosing character on each side.
use vstd::prelude::*;
use vstd::string::StringExecFns;
use crate::text::all_digits;
use crate::text::dec_of;
use crate::text::dec_value;
use crate::text::parse_u32_dec;
use crate::text::rem_first_and_last;
use crate::text::split_char;
use crate::text::split_on;
use crate::text::trim_ends;
use crate::text::u32_to_dec;

verus! {

/// Which platform's forced-termination facility a kill request selects.
#[derive(Clone, Copy, PartialEq, Eq, Debug, Structural)]
pub enum SignalKind {
    Posix,
    Windows,
}

/// A parsed request to start one supervised process: the executable to spawn,
/// the directory to run it in, and its full argument list.
#[derive(Clone, Debug)]
pub struct StartRequest {
    pub executable: String,
    pub working_directory: String,
    pub args: Vec<String>,
}

impl StartRequest {
    /// The argument list as a sequence of character sequences.
    pub open spec fn args_view(self) -> Seq<Seq<char>> {
        self.args@.map_values(|a: String| a@)
    }
}

/// A parsed request to forcibly terminate a process by id.
#[derive(Clone, Copy, PartialEq, Eq, Debug, Structural)]
pub struct KillRequest {
    pub signal_kind: SignalKind,
    pub target_process_id: u32,
}

/// One command-line invocation: a program name and its arguments.
#[derive(Clone, Debug)]
pub struct Invocation {
    pub program: String,
    pub args: Vec<String>,
}

impl Invocation {
    /// The argument list as a sequence of character sequences.
    pub open spec fn args_view(self) -> Seq<Seq<char>> {
        self.args@.map_values(|a: String| a@)
    }
}

/// The fixed first argument the supervised tool expects before the two
/// caller-supplied values.
pub fn tool_first_arg() -> (r: &'static str)
    ensures
        r@ == "input.tiff"@,
{
    "input.tiff"
}

/// Parses a start-process payload. Returns the request exactly when the
/// payload splits into at least eight tokens; the request's argument list is
/// the tool's fixed first argument followed by the two caller-supplied values.
pub fn parse_start_command(payload: &str) -> (r: Option<StartRequest>)
    ensures
        ({
            let toks = split_char(payload@, '"');
            match r {
                Some(req) => toks.len() >= 8 && req.executable@ == toks[1]
                    && req.working_directory@ == toks[3] && req.args_view() == seq![
                    "input.tiff"@,
                    toks[5],
                    toks[7],
                ],
                None => toks.len() < 8,
            }
        }),
{
    let toks = split_on(payload, '"');
    if toks.len() < 8 {
        return None;
    }
    let executable = toks[1].clone();
    let working_directory = toks[3].clone();
    let mut args: Vec<String> = Vec::new();
    args.push(tool_first_arg().to_owned());
    args.push(toks[5].clone());
    args.push(toks[7].clone());
    let req = StartRequest { executable, working_directory, args };
    proof {
        let toks_view = split_char(payload@, '"');
        assert(req.args_view() =~= seq!["input.tiff"@, toks_view[5], toks_view[7]]);
    }
    Some(req)
}

/// Parses a kill-process payload. The discriminator token `kill` selects the
/// POSIX kind; any other discriminator selects the Windows kind. The id token
/// is read with its first and last character stripped; a payload with fewer
/// than three tokens, or whose stripped id token is not a decimal number that
/// fits a `u32`, is rejected.
pub fn parse_kill_command(payload: &str) -> (r: Option<KillRequest>)
    ensures
        ({
            let toks = split_char(payload@, '"');
            match r {
                Some(req) => toks.len() >= 3 && (req.signal_kind == SignalKind::Posix <==> toks[1]
                    == "kill"@) && trim_ends(toks[2]).len() > 0 && all_digits(trim_ends(toks[2]))
                    && req.target_process_id as nat == dec_value(trim_ends(toks[2])),
                None => toks.len() < 3 || trim_ends(toks[2]).len() == 0 || !all_digits(
                    trim_ends(toks[2]),
                ) || dec_value(trim_ends(toks[2])) > u32::MAX,
            }
        }),
{
    let toks = split_on(payload, '"');
    if toks.len() < 3 {
        return None;
    }
    let pid_tok = rem_first_and_last(toks[2].as_str());
    let pid = match parse_u32_dec(pid_tok) {
        Some(p) => p,
        None => {
            return None;
        },
    };
    let marker = String::from_str("kill");
    let is_kill = toks[1].eq(&marker);
    let signal_kind = if is_kill {
        SignalKind::Posix
    } else {
        SignalKind::Windows
    };
    Some(KillRequest { signal_kind, target_process_id: pid })
}

/// Resolves a kill request to the single platform-appropriate forced
/// termination call: `kill -s 9 <pid>` for the POSIX kind, `taskkill /f /pid
/// <pid>` for the Windows kind. The final argument is the target process id
/// written in decimal, so by `lemma_dec_round_trip` the call targets exactly
/// the requested id.
pub fn kill_invocation(req: &KillRequest) -> (r: Invocation)
    ensures
        req.signal_kind == SignalKind::Posix ==> r.program@ == "kill"@ && r.args_view() == seq![
            "-s"@,
            "9"@,
            dec_of(req.target_process_id as nat),
        ],
        req.signal_kind == SignalKind::Windows ==> r.program@ == "taskkill"@ && r.args_view()
            == seq!["/f"@, "/pid"@, dec_of(req.target_process_id as nat)],
{
    let pid = u32_to_dec(req.target_process_id);
    match req.signal_kind {
        SignalKind::Posix => {
            let mut args: Vec<String> = Vec::new();
            args.push(String::from_str("-s"));
            args.push(String::from_str("9"));
            args.push(pid);
            let r = Invocation { program: String::from_str("kill"), args };
            proof {
                assert(r.args_view() =~= seq![
                    "-s"@,
                    "9"@,
                    dec_of(req.target_process_id as nat),
                ]);
            }
            r
        },
        SignalKind::Windows => {
            let mut args: Vec<String> = Vec::new();
            args.push(String::from_str("/f"));
            args.push(String::from_str("/pid"));
            args.push(pid);
            let r = Invocation { program: String::from_str("taskkill"), args };
            proof {
                assert(r.args_view() =~= seq![
                    "/f"@,
                    "/pid"@,
                    dec_of(req.target_process_id as nat),
                ]);
            }
            r
        },
    }
}

} // verus!
