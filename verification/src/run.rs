//! Exit-code policy and `--gpu` resolution for the one-shot surfaces.
//!
//! `0` success (partial telemetry and a downstream broken pipe included),
//! `1` fatal runtime failure, no startup GPU, or output failure, `2` invalid
//! usage or configuration, `130` interrupted by SIGINT.
use vstd::prelude::*;
use crate::cli::GpuSelector;
use crate::model::{PhysicalGpuId, PciBdf};
use crate::text::{extend_chars, push_decimal, string_of, decimal};
use crate::ui::{GpuEntry, resolve_selector, resolved};

verus! {

pub const EXIT_OK: u8 = 0;
pub const EXIT_FATAL: u8 = 1;
pub const EXIT_USAGE: u8 = 2;
pub const EXIT_SIGINT: u8 = 130;

/// How writing one-shot output ended.
#[derive(Debug, Clone, Copy, PartialEq, Eq, Structural)]
pub enum WriteOutcome {
    Written,
    /// The downstream reader went away: a successful exit.
    BrokenPipe,
    Failed,
}

/// The exit code of a one-shot surface: a broken pipe is success, and a
/// shutdown failure after a broken pipe is ignored; otherwise a shutdown
/// failure is fatal.
pub open spec fn one_shot_code(write: WriteOutcome, shutdown_ok: bool) -> u8 {
    let code = match write {
        WriteOutcome::Written => EXIT_OK,
        WriteOutcome::BrokenPipe => EXIT_OK,
        WriteOutcome::Failed => EXIT_FATAL,
    };
    if shutdown_ok {
        code
    } else if write == WriteOutcome::BrokenPipe {
        EXIT_OK
    } else {
        EXIT_FATAL
    }
}

/// Decides a one-shot surface's exit code.
pub fn one_shot_exit(write: WriteOutcome, shutdown_ok: bool) -> (c: u8)
    ensures
        c == one_shot_code(write, shutdown_ok),
{
    let code = match write {
        WriteOutcome::Written => EXIT_OK,
        WriteOutcome::BrokenPipe => EXIT_OK,
        WriteOutcome::Failed => EXIT_FATAL,
    };
    if shutdown_ok {
        code
    } else if write == WriteOutcome::BrokenPipe {
        EXIT_OK
    } else {
        EXIT_FATAL
    }
}

/// How the continuous JSON stream ended.
#[derive(Debug, Clone, Copy, PartialEq, Eq, Structural)]
pub enum StreamEnd {
    Interrupted,
    BrokenPipe,
    WriteFailed,
    MonitorFatal,
    MonitorClosed,
}

/// Decides the JSON stream's exit code.
pub fn stream_exit(end: StreamEnd, shutdown_ok: bool) -> (c: u8)
    ensures
        c == (if !shutdown_ok && end != StreamEnd::BrokenPipe {
            EXIT_FATAL
        } else {
            match end {
                StreamEnd::Interrupted => EXIT_SIGINT,
                StreamEnd::BrokenPipe => EXIT_OK,
                _ => EXIT_FATAL,
            }
        }),
{
    let code = match end {
        StreamEnd::Interrupted => EXIT_SIGINT,
        StreamEnd::BrokenPipe => EXIT_OK,
        _ => EXIT_FATAL,
    };
    if shutdown_ok || end == StreamEnd::BrokenPipe {
        code
    } else {
        EXIT_FATAL
    }
}

/// How the interactive surface ended.
#[derive(Debug, Clone, Copy, PartialEq, Eq, Structural)]
pub enum InteractiveEnd {
    Quit,
    /// A stop signal arrived; `sigint` says whether it was SIGINT.
    Stopped { sigint: bool },
    MonitorFatal,
    InterfaceFailure,
    Panicked,
}

/// The interactive exit code: a quit is success, SIGINT is 130, failures
/// are fatal; a failed terminal restoration or shutdown is fatal unless the
/// run was interrupted by SIGINT.
pub open spec fn interactive_code(end: InteractiveEnd, restore_failed: bool, shutdown_failed: bool) -> u8 {
    let code = match end {
        InteractiveEnd::Quit => EXIT_OK,
        InteractiveEnd::Stopped { sigint } => if sigint {
            EXIT_SIGINT
        } else {
            EXIT_OK
        },
        _ => EXIT_FATAL,
    };
    if restore_failed || shutdown_failed {
        if code == EXIT_SIGINT {
            EXIT_SIGINT
        } else {
            EXIT_FATAL
        }
    } else {
        code
    }
}

/// Decides the interactive surface's exit code.
pub fn interactive_exit(end: InteractiveEnd, restore_failed: bool, shutdown_failed: bool) -> (c: u8)
    ensures
        c == interactive_code(end, restore_failed, shutdown_failed),
{
    let code = match end {
        InteractiveEnd::Quit => EXIT_OK,
        InteractiveEnd::Stopped { sigint } => if sigint {
            EXIT_SIGINT
        } else {
            EXIT_OK
        },
        _ => EXIT_FATAL,
    };
    if restore_failed || shutdown_failed {
        if code == EXIT_SIGINT {
            EXIT_SIGINT
        } else {
            EXIT_FATAL
        }
    } else {
        code
    }
}

/// The exit code when `--tiny` names no GPU: fatal with no GPU at all,
/// usage error otherwise.
pub fn selection_failure_exit(no_gpus: bool) -> (c: u8)
    ensures
        c == (if no_gpus {
            EXIT_FATAL
        } else {
            EXIT_USAGE
        }),
{
    if no_gpus {
        EXIT_FATAL
    } else {
        EXIT_USAGE
    }
}

/// One GPU in the "available" list: `index (id, bdf)`.
pub open spec fn gpu_label(g: GpuEntry) -> Seq<char> {
    decimal(g.index as nat) + " ("@ + g.id@ + ", "@ + g.bdf@ + ")"@
}

/// The available GPUs, comma separated.
pub open spec fn available_list(gpus: Seq<GpuEntry>) -> Seq<char>
    decreases gpus.len(),
{
    if gpus.len() == 0 {
        Seq::empty()
    } else if gpus.len() == 1 {
        gpu_label(gpus[0])
    } else {
        available_list(gpus.drop_last()) + ", "@ + gpu_label(gpus.last())
    }
}

/// Resolves `--gpu` for the one-shot surfaces: the first GPU without a
/// selector, the selected one otherwise; the error lists what is available.
#[verifier::loop_isolation(false)]
pub fn select_gpu(gpus: &Vec<GpuEntry>, selector: &Option<GpuSelector>) -> (r: Result<usize, String>)
    ensures
        selector is None && gpus@.len() == 0 ==> (r matches Err(m) && m@ == "no GPU discovered"@),
        selector is None && gpus@.len() > 0 ==> r == Ok::<usize, String>(0),
        *selector matches Some(sel) ==> match resolved(sel, gpus@) {
            Some(id) => r matches Ok(i) && i < gpus@.len() && gpus@[i as int].id@ == id,
            None => r matches Err(m) && m@ == "no GPU matches the selector; available: "@ + available_list(gpus@),
        },
{
    match selector {
        None => {
            if gpus.len() == 0 {
                Err("no GPU discovered".to_owned())
            } else {
                Ok(0)
            }
        },
        Some(sel) => {
            match resolve_selector(sel, gpus) {
                Some(id) => {
                    proof {
                        crate::ui::lemma_resolved_names_a_gpu(*sel, gpus@);
                    }
                    let mut i: usize = 0;
                    while i < gpus.len()
                        invariant
                            i <= gpus@.len(),
                            exists|j: int| i <= j < gpus@.len() && (#[trigger] gpus@[j]).id@ == id@,
                        decreases gpus.len() - i,
                    {
                        if gpus[i].id.same(&id) {
                            return Ok(i);
                        }
                        i = i + 1;
                    }
                    Ok(0)
                },
                None => {
                    let mut out: Vec<char> = Vec::new();
                    extend_chars(&mut out, "no GPU matches the selector; available: ");
                    let ghost start = out@;
                    let mut i: usize = 0;
                    while i < gpus.len()
                        invariant
                            i <= gpus@.len(),
                            out@ == start + available_list(gpus@.take(i as int)),
                        decreases gpus.len() - i,
                    {
                        proof {
                            assert(gpus@.take(i + 1).drop_last() =~= gpus@.take(i as int));
                        }
                        let ghost before = out@;
                        if i > 0 {
                            extend_chars(&mut out, ", ");
                        }
                        push_decimal(&mut out, gpus[i].index as u128);
                        extend_chars(&mut out, " (");
                        extend_chars(&mut out, gpus[i].id.as_str());
                        extend_chars(&mut out, ", ");
                        extend_chars(&mut out, gpus[i].bdf.as_str());
                        extend_chars(&mut out, ")");
                        proof {
                            if i == 0 {
                                assert(out@ =~= start + available_list(gpus@.take(1)));
                            } else {
                                assert(out@ =~= start + available_list(gpus@.take(i + 1)));
                            }
                        }
                        i = i + 1;
                    }
                    proof {
                        assert(gpus@.take(gpus@.len() as int) =~= gpus@);
                    }
                    Err(string_of(&out))
                },
            }
        },
    }
}

} // verus!
