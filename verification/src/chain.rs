//! Chain realization, the computable half: each stage command is tokenized
//! into argv, the fixed instrumentation arguments (machine-readable progress
//! on the diagnostic stream, banner suppressed) are appended, and the stage's
//! environment block is resolved. The wiring plan is explicit: the first
//! stage reads no input, every later stage reads the previous stage's output.
//! The host spawns the prepared stages in order, piping accordingly.

use crate::command::{split_command, tokens_of};
use crate::parser::{entries_match, env_map_of, parse_env_map, EnvEntry};
use vstd::prelude::*;

verus! {

/// Where a stage's input stream comes from: nowhere (never the host's own
/// stdin), or the previous stage's output.
#[derive(Clone, Copy, Debug, PartialEq, Eq, Structural)]
pub enum StageInput {
    Null,
    PrevOutput,
}

/// One stage ready to spawn: program, arguments (instrumentation included),
/// the complete process environment, and the input wiring.
#[derive(Debug)]
pub struct PreparedStage {
    pub program: String,
    pub args: Vec<String>,
    pub env: Vec<EnvEntry>,
    pub input: StageInput,
}

/// The fixed instrumentation arguments appended to every stage invocation.
pub open spec fn instrumentation_args() -> Seq<Seq<char>> {
    seq!["-progress"@, "pipe:2"@, "-hide_banner"@]
}

/// Program and argument list of one stage command: the first token names the
/// program, the remaining tokens plus the instrumentation arguments follow.
/// `None` when the command cannot be tokenized or holds no token at all.
pub open spec fn stage_argv(cmd: Seq<char>) -> Option<(Seq<char>, Seq<Seq<char>>)> {
    match tokens_of(cmd) {
        Some(ts) => if ts.len() == 0 {
            None
        } else {
            Some((ts[0], ts.drop_first() + instrumentation_args()))
        },
        None => None,
    }
}

/// Realization failure: the stage at this position cannot be tokenized (or is
/// empty). The chain is abandoned and the job is to be reported as failed;
/// other jobs are unaffected.
#[derive(Clone, Copy, Debug, PartialEq, Eq, Structural)]
pub struct TokenizeFailure {
    pub stage: usize,
}

/// Append the instrumentation arguments.
fn push_instrumentation(args: &mut Vec<String>)
    ensures
        final(args).deep_view() == old(args).deep_view() + instrumentation_args(),
{
    let ghost d0 = args.deep_view();
    args.push("-progress".to_owned());
    args.push("pipe:2".to_owned());
    args.push("-hide_banner".to_owned());
    proof {
        assert(args.deep_view() =~~= d0 + instrumentation_args());
    }
}

/// Prepare one stage: tokenize its command, split off the program, append the
/// instrumentation arguments, resolve its environment block, and record the
/// input wiring. `None` exactly when the command yields no argv.
pub fn prepare_stage(cmd: &str, env_block: &str, first: bool) -> (r: Option<PreparedStage>)
    ensures
        r matches Some(st) ==> {
            &&& stage_argv(cmd@) matches Some(pa) && st.program@ == pa.0 && st.args.deep_view()
                == pa.1
            &&& entries_match(st.env.deep_view(), env_map_of(env_block@))
            &&& st.input == (if first {
                StageInput::Null
            } else {
                StageInput::PrevOutput
            })
        },
        r is None ==> stage_argv(cmd@) is None,
{
    let mut toks = match split_command(cmd) {
        Some(t) => t,
        None => {
            return None;
        },
    };
    if toks.len() == 0 {
        return None;
    }
    let ghost ts = toks.deep_view();
    let program = toks.remove(0);
    let mut args = toks;
    proof {
        assert(args.deep_view() =~~= ts.drop_first());
    }
    push_instrumentation(&mut args);
    let env = parse_env_map(env_block);
    let input = if first {
        StageInput::Null
    } else {
        StageInput::PrevOutput
    };
    let st = PreparedStage { program: program, args: args, env: env, input: input };
    proof {
        assert(st.args.deep_view() =~= ts.drop_first() + instrumentation_args());
    }
    Some(st)
}

/// Prepare a whole chain, stage by stage and strictly in order. On the first
/// stage that yields no argv the chain is abandoned and its position is
/// reported; nothing is prepared past it.
pub fn prepare_chain(cmds: &Vec<String>, envs: &Vec<String>) -> (r: Result<
    Vec<PreparedStage>,
    TokenizeFailure,
>)
    requires
        cmds@.len() == envs@.len(),
    ensures
        r matches Ok(v) ==> {
            &&& v@.len() == cmds@.len()
            &&& forall|i: int|
                0 <= i < v@.len() ==> {
                    let st = #[trigger] v@[i];
                    &&& stage_argv(cmds@[i]@) matches Some(pa) && st.program@ == pa.0
                        && st.args.deep_view() == pa.1
                    &&& entries_match(st.env.deep_view(), env_map_of(envs@[i]@))
                    &&& st.input == (if i == 0 {
                        StageInput::Null
                    } else {
                        StageInput::PrevOutput
                    })
                }
        },
        r matches Err(e) ==> {
            &&& e.stage < cmds@.len()
            &&& stage_argv(cmds@[e.stage as int]@) is None
            &&& forall|k: int| 0 <= k < e.stage ==> stage_argv((#[trigger] cmds@[k])@) is Some
        },
{
    let mut out: Vec<PreparedStage> = Vec::new();
    let mut i: usize = 0;
    while i < cmds.len()
        invariant
            i <= cmds@.len(),
            out@.len() == i,
            cmds@.len() == envs@.len(),
            forall|k: int|
                0 <= k < i ==> {
                    let st = #[trigger] out@[k];
                    &&& stage_argv(cmds@[k]@) matches Some(pa) && st.program@ == pa.0
                        && st.args.deep_view() == pa.1
                    &&& entries_match(st.env.deep_view(), env_map_of(envs@[k]@))
                    &&& st.input == (if k == 0 {
                        StageInput::Null
                    } else {
                        StageInput::PrevOutput
                    })
                },
        decreases cmds@.len() - i,
    {
        match prepare_stage(cmds[i].as_str(), envs[i].as_str(), i == 0) {
            Some(st) => {
                out.push(st);
            },
            None => {
                proof {
                    assert forall|k: int| 0 <= k < i implies stage_argv(
                        (#[trigger] cmds@[k])@,
                    ) is Some by {
                        let st = out@[k];
                        assert(stage_argv(cmds@[k]@) matches Some(pa) && st.program@ == pa.0
                            && st.args.deep_view() == pa.1);
                    }
                }
                return Err(TokenizeFailure { stage: i });
            },
        }
        i = i + 1;
    }
    Ok(out)
}

} // verus!
