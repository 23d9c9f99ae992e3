//! Command-line grammar of the decoder experiment and the harness receiver.
//! Each takes the arguments after the program name and yields the settings
//! or the text of the first error.
use vstd::prelude::*;
use vstd::string::StringExecFns;
use crate::backend::Backend;
use crate::text::{parse_u64, str_eq};

verus! {

/// The decoder experiment's settings.
#[derive(Debug, Clone)]
pub struct ExperimentArgs {
    pub input: String,
    pub backend: Backend,
    pub frames: Option<u64>,
    pub stall_every: u64,
    pub stall_ms: u64,
    pub json_out: Option<String>,
    pub characterize: bool,
    pub clean: bool,
    pub force_zero_output: bool,
    pub max_packets: u64,
    pub timeout_secs: u64,
}

/// Settings gathered while walking the arguments.
pub struct ArgsAcc {
    pub input: Option<Seq<char>>,
    pub backend: Option<Backend>,
    pub frames: Option<u64>,
    pub stall_every: u64,
    pub stall_ms: u64,
    pub json_out: Option<Seq<char>>,
    pub characterize: bool,
    pub clean: bool,
    pub force_zero_output: bool,
    pub max_packets: u64,
    pub timeout_secs: Option<u64>,
}

pub open spec fn initial_acc() -> ArgsAcc {
    ArgsAcc {
        input: None,
        backend: None,
        frames: None,
        stall_every: 0,
        stall_ms: 0,
        json_out: None,
        characterize: false,
        clean: false,
        force_zero_output: false,
        max_packets: 480,
        timeout_secs: None,
    }
}

pub open spec fn requires_value(flag: Seq<char>) -> Seq<char> {
    flag + " requires a value"@
}

pub open spec fn not_a_count(flag: Seq<char>) -> Seq<char> {
    flag + " must be a non-negative integer"@
}

/// Flags that take a non-negative integer.
pub open spec fn is_count_flag(a: Seq<char>) -> bool {
    a == "--frames"@ || a == "--stall-every"@ || a == "--stall-ms"@ || a == "--max-packets"@
        || a == "--timeout-secs"@
}

/// Flags that take a value.
pub open spec fn is_value_flag(a: Seq<char>) -> bool {
    a == "--input"@ || a == "--backend"@ || a == "--json-out"@ || is_count_flag(a)
}

/// `acc` with count flag `a` set to `n`.
pub open spec fn with_count(acc: ArgsAcc, a: Seq<char>, n: u64) -> ArgsAcc {
    if a == "--frames"@ {
        ArgsAcc { frames: Some(n), ..acc }
    } else if a == "--stall-every"@ {
        ArgsAcc { stall_every: n, ..acc }
    } else if a == "--stall-ms"@ {
        ArgsAcc { stall_ms: n, ..acc }
    } else if a == "--max-packets"@ {
        ArgsAcc { max_packets: n, ..acc }
    } else {
        ArgsAcc { timeout_secs: Some(n), ..acc }
    }
}

/// Walk the arguments from index `i`: each flag in turn, a value flag
/// consuming the next argument; the first problem ends the walk with its
/// text.
pub open spec fn scan_args(args: Seq<Seq<char>>, i: int, acc: ArgsAcc) -> Result<ArgsAcc, Seq<char>>
    decreases args.len() - i,
{
    if i < 0 || i >= args.len() {
        Ok(acc)
    } else {
        let a = args[i];
        if is_value_flag(a) {
            if i + 1 >= args.len() {
                Err(requires_value(a))
            } else {
                let v = args[i + 1];
                if a == "--input"@ {
                    scan_args(args, i + 2, ArgsAcc { input: Some(v), ..acc })
                } else if a == "--json-out"@ {
                    scan_args(args, i + 2, ArgsAcc { json_out: Some(v), ..acc })
                } else if a == "--backend"@ {
                    if v == crate::backend::backend_id(Backend::CuvidLowDelay) {
                        scan_args(args, i + 2, ArgsAcc { backend: Some(Backend::CuvidLowDelay), ..acc })
                    } else if v == crate::backend::backend_id(Backend::Sw1LowDelay) {
                        scan_args(args, i + 2, ArgsAcc { backend: Some(Backend::Sw1LowDelay), ..acc })
                    } else {
                        Err(crate::backend::unknown_backend_flag_message(v))
                    }
                } else {
                    match crate::text::parse_u64_spec(v) {
                        Some(n) => scan_args(args, i + 2, with_count(acc, a, n)),
                        None => Err(not_a_count(a)),
                    }
                }
            }
        } else if a == "--characterize"@ {
            scan_args(args, i + 1, ArgsAcc { characterize: true, ..acc })
        } else if a == "--clean"@ {
            scan_args(args, i + 1, ArgsAcc { clean: true, ..acc })
        } else if a == "--force-zero-output"@ {
            scan_args(args, i + 1, ArgsAcc { force_zero_output: true, ..acc })
        } else {
            Err("unknown argument: "@ + a)
        }
    }
}

pub open spec fn exclusive_modes_message() -> Seq<char> {
    "--characterize, --clean, and --force-zero-output are mutually exclusive (each is a separate invocation)"@
}

/// The settings the arguments give, or the first error: unknown or
/// malformed arguments, more than one mode, a missing input, a missing
/// backend. The timeout defaults to 60 s with `--force-zero-output`, else
/// to 90 s.
pub open spec fn experiment_args_spec(args: Seq<Seq<char>>) -> Result<ArgsAcc, Seq<char>> {
    match scan_args(args, 0, initial_acc()) {
        Err(e) => Err(e),
        Ok(acc) => {
            let modes = (if acc.characterize { 1int } else { 0 }) + (if acc.clean { 1int } else { 0 })
                + (if acc.force_zero_output { 1int } else { 0 });
            if modes > 1 {
                Err(exclusive_modes_message())
            } else if acc.input is None {
                Err("--input is required"@)
            } else if acc.backend is None {
                Err("--backend is required"@)
            } else {
                Ok(ArgsAcc {
                    timeout_secs: Some(
                        match acc.timeout_secs {
                            Some(t) => t,
                            None => if acc.force_zero_output { 60 } else { 90 },
                        },
                    ),
                    ..acc
                })
            }
        },
    }
}

/// The texts of a list of strings.
pub open spec fn arg_texts(v: Seq<String>) -> Seq<Seq<char>> {
    Seq::new(v.len(), |i: int| v[i]@)
}

pub open spec fn opt_text(o: Option<String>) -> Option<Seq<char>> {
    match o {
        Some(s) => Some(s@),
        None => None,
    }
}

/// The settings as walked values.
pub open spec fn args_as_acc(a: ExperimentArgs) -> ArgsAcc {
    ArgsAcc {
        input: Some(a.input@),
        backend: Some(a.backend),
        frames: a.frames,
        stall_every: a.stall_every,
        stall_ms: a.stall_ms,
        json_out: opt_text(a.json_out),
        characterize: a.characterize,
        clean: a.clean,
        force_zero_output: a.force_zero_output,
        max_packets: a.max_packets,
        timeout_secs: Some(a.timeout_secs),
    }
}

fn flag_error(flag: &str, suffix: &str) -> (e: String)
    ensures
        e@ == flag@ + suffix@,
{
    let mut e = String::from_str(flag);
    e.append(suffix);
    e
}

fn clone_opt(o: &Option<String>) -> (r: Option<String>)
    ensures
        opt_text(r) == opt_text(*o),
{
    match o {
        Some(s) => Some(s.clone()),
        None => None,
    }
}

/// Parse the decoder experiment's arguments.
pub fn parse_experiment_args(args: &[String]) -> (r: Result<ExperimentArgs, String>)
    ensures
        match experiment_args_spec(arg_texts(args@)) {
            Ok(acc) => r matches Ok(a) && args_as_acc(a) == acc,
            Err(e) => r matches Err(m) && m@ == e,
        },
{
    proof {
        reveal_strlit("--input");
        reveal_strlit("--backend");
        reveal_strlit("--json-out");
        reveal_strlit("--frames");
        reveal_strlit("--stall-every");
        reveal_strlit("--stall-ms");
        reveal_strlit("--max-packets");
        reveal_strlit("--timeout-secs");
        reveal_strlit("--characterize");
        reveal_strlit("--clean");
        reveal_strlit("--force-zero-output");
    }
    let ghost texts = arg_texts(args@);
    let mut input: Option<String> = None;
    let mut backend: Option<Backend> = None;
    let mut frames: Option<u64> = None;
    let mut stall_every: u64 = 0;
    let mut stall_ms: u64 = 0;
    let mut json_out: Option<String> = None;
    let mut characterize = false;
    let mut clean = false;
    let mut force_zero_output = false;
    let mut max_packets: u64 = 480;
    let mut timeout_secs: Option<u64> = None;
    let mut i: usize = 0;
    while i < args.len()
        invariant
            i <= args@.len(),
            texts == arg_texts(args@),
            scan_args(texts, i as int, ArgsAcc {
                input: opt_text(input),
                backend,
                frames,
                stall_every,
                stall_ms,
                json_out: opt_text(json_out),
                characterize,
                clean,
                force_zero_output,
                max_packets,
                timeout_secs,
            }) == scan_args(texts, 0, initial_acc()),
        decreases args@.len() - i,
    {
        let a = args[i].as_str();
        assert(a@ == texts[i as int]);
        let is_count = str_eq(a, "--frames") || str_eq(a, "--stall-every") || str_eq(a, "--stall-ms")
            || str_eq(a, "--max-packets") || str_eq(a, "--timeout-secs");
        let is_value = is_count || str_eq(a, "--input") || str_eq(a, "--backend") || str_eq(a, "--json-out");
        if is_value {
            if i + 1 >= args.len() {
                return Err(flag_error(a, " requires a value"));
            }
            let v = args[i + 1].as_str();
            assert(v@ == texts[i + 1]);
            if str_eq(a, "--input") {
                input = Some(String::from_str(v));
            } else if str_eq(a, "--json-out") {
                json_out = Some(String::from_str(v));
            } else if str_eq(a, "--backend") {
                match Backend::parse(v) {
                    Ok(b) => backend = Some(b),
                    Err(e) => return Err(e),
                }
            } else {
                match parse_u64(v) {
                    Some(n) => {
                        if str_eq(a, "--frames") {
                            frames = Some(n);
                        } else if str_eq(a, "--stall-every") {
                            stall_every = n;
                        } else if str_eq(a, "--stall-ms") {
                            stall_ms = n;
                        } else if str_eq(a, "--max-packets") {
                            max_packets = n;
                        } else {
                            timeout_secs = Some(n);
                        }
                    },
                    None => return Err(flag_error(a, " must be a non-negative integer")),
                }
            }
            i += 2;
        } else if str_eq(a, "--characterize") {
            characterize = true;
            i += 1;
        } else if str_eq(a, "--clean") {
            clean = true;
            i += 1;
        } else if str_eq(a, "--force-zero-output") {
            force_zero_output = true;
            i += 1;
        } else {
            return Err(flag_error("unknown argument: ", a));
        }
    }
    let modes: u8 = (if characterize { 1u8 } else { 0u8 }) + (if clean { 1u8 } else { 0u8 })
        + (if force_zero_output { 1u8 } else { 0u8 });
    if modes > 1 {
        return Err(String::from_str(
            "--characterize, --clean, and --force-zero-output are mutually exclusive (each is a separate invocation)",
        ));
    }
    let timeout_secs = match timeout_secs {
        Some(t) => t,
        None => if force_zero_output { 60 } else { 90 },
    };
    let input = match input {
        Some(s) => s,
        None => return Err(String::from_str("--input is required")),
    };
    let backend = match backend {
        Some(b) => b,
        None => return Err(String::from_str("--backend is required")),
    };
    Ok(ExperimentArgs {
        input,
        backend,
        frames,
        stall_every,
        stall_ms,
        json_out,
        characterize,
        clean,
        force_zero_output,
        max_packets,
        timeout_secs,
    })
}

/// Name of the mode the settings select.
pub fn mode_name(args: &ExperimentArgs) -> (r: &'static str)
    ensures
        r@ == if args.characterize {
            "characterize"@
        } else if args.clean {
            "clean"@
        } else if args.force_zero_output {
            "force_zero_output"@
        } else {
            "default"@
        },
{
    if args.characterize {
        "characterize"
    } else if args.clean {
        "clean"
    } else if args.force_zero_output {
        "force_zero_output"
    } else {
        "default"
    }
}

/// The harness receiver's settings; `listen` is a socket address.
#[derive(Debug, Clone)]
pub struct HarnessArgs {
    pub listen: String,
    pub backend: Backend,
    pub json_out: Option<String>,
}

/// Harness settings gathered while walking the arguments.
pub struct HarnessAcc {
    pub listen: Option<Seq<char>>,
    pub backend: Option<Backend>,
    pub json_out: Option<Seq<char>>,
}

/// Walk the harness arguments from index `i`; `addr_ok[k]` says whether
/// argument `k` is a valid socket address.
pub open spec fn scan_harness_args(args: Seq<Seq<char>>, addr_ok: Seq<bool>, i: int, acc: HarnessAcc)
    -> Result<HarnessAcc, Seq<char>>
    decreases args.len() - i,
{
    if i < 0 || i >= args.len() {
        Ok(acc)
    } else {
        let a = args[i];
        if a == "--listen"@ || a == "--backend"@ || a == "--json-out"@ {
            if i + 1 >= args.len() {
                Err(requires_value(a))
            } else {
                let v = args[i + 1];
                if a == "--listen"@ {
                    if addr_ok[i + 1] {
                        scan_harness_args(args, addr_ok, i + 2, HarnessAcc { listen: Some(v), ..acc })
                    } else {
                        Err("invalid --listen address '"@ + v + "'"@)
                    }
                } else if a == "--backend"@ {
                    if v == crate::backend::backend_id(Backend::CuvidLowDelay) {
                        scan_harness_args(args, addr_ok, i + 2, HarnessAcc { backend: Some(Backend::CuvidLowDelay), ..acc })
                    } else if v == crate::backend::backend_id(Backend::Sw1LowDelay) {
                        scan_harness_args(args, addr_ok, i + 2, HarnessAcc { backend: Some(Backend::Sw1LowDelay), ..acc })
                    } else {
                        Err(crate::backend::unknown_backend_flag_message(v))
                    }
                } else {
                    scan_harness_args(args, addr_ok, i + 2, HarnessAcc { json_out: Some(v), ..acc })
                }
            }
        } else {
            Err("unknown argument: "@ + a)
        }
    }
}

/// The harness settings the arguments give, or the first error; the
/// listen address is required before the backend.
pub open spec fn harness_args_spec(args: Seq<Seq<char>>, addr_ok: Seq<bool>) -> Result<HarnessAcc, Seq<char>> {
    match scan_harness_args(args, addr_ok, 0, HarnessAcc { listen: None, backend: None, json_out: None }) {
        Err(e) => Err(e),
        Ok(acc) => if acc.listen is None {
            Err("--listen is required"@)
        } else if acc.backend is None {
            Err("--backend is required"@)
        } else {
            Ok(acc)
        },
    }
}

/// Parse the harness receiver's arguments. `addr_ok[k]` tells whether
/// `args[k]` parses as a socket address.
pub fn parse_harness_args(args: &[String], addr_ok: &[bool]) -> (r: Result<HarnessArgs, String>)
    requires
        addr_ok@.len() == args@.len(),
    ensures
        match harness_args_spec(arg_texts(args@), addr_ok@) {
            Ok(acc) => r matches Ok(a) && acc == (HarnessAcc {
                listen: Some(a.listen@),
                backend: Some(a.backend),
                json_out: opt_text(a.json_out),
            }),
            Err(e) => r matches Err(m) && m@ == e,
        },
{
    let ghost texts = arg_texts(args@);
    let mut listen: Option<String> = None;
    let mut backend: Option<Backend> = None;
    let mut json_out: Option<String> = None;
    let mut i: usize = 0;
    while i < args.len()
        invariant
            i <= args@.len(),
            addr_ok@.len() == args@.len(),
            texts == arg_texts(args@),
            scan_harness_args(texts, addr_ok@, i as int, HarnessAcc {
                listen: opt_text(listen),
                backend,
                json_out: opt_text(json_out),
            }) == scan_harness_args(texts, addr_ok@, 0, HarnessAcc { listen: None, backend: None, json_out: None }),
        decreases args@.len() - i,
    {
        let a = args[i].as_str();
        assert(a@ == texts[i as int]);
        if str_eq(a, "--listen") || str_eq(a, "--backend") || str_eq(a, "--json-out") {
            if i + 1 >= args.len() {
                return Err(flag_error(a, " requires a value"));
            }
            let v = args[i + 1].as_str();
            assert(v@ == texts[i + 1]);
            if str_eq(a, "--listen") {
                if !addr_ok[i + 1] {
                    let mut e = String::from_str("invalid --listen address '");
                    e.append(v);
                    e.append("'");
                    return Err(e);
                }
                listen = Some(String::from_str(v));
            } else if str_eq(a, "--backend") {
                match Backend::parse(v) {
                    Ok(b) => backend = Some(b),
                    Err(e) => return Err(e),
                }
            } else {
                json_out = Some(String::from_str(v));
            }
            i += 2;
        } else {
            return Err(flag_error("unknown argument: ", a));
        }
    }
    let listen = match listen {
        Some(s) => s,
        None => return Err(String::from_str("--listen is required")),
    };
    let backend = match backend {
        Some(b) => b,
        None => return Err(String::from_str("--backend is required")),
    };
    Ok(HarnessArgs { listen, backend, json_out })
}

} // verus!
