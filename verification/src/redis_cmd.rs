//! Trusted declarations of the redis command and pipeline builders.
//!
//! The persistent cache expresses every write as redis commands collected
//! into a pipeline. Commands are built argument by argument from plain
//! byte strings, so the contracts below pin down exactly which argument
//! lists a pipeline carries; the verified layer on top states the full
//! wire content of every command it builds.

use vstd::prelude::*;

verus! {

#[verifier::external_type_specification]
#[verifier::external_body]
pub struct ExCmd(redis::Cmd);

#[verifier::external_type_specification]
#[verifier::external_body]
pub struct ExPipeline(redis::Pipeline);

/// The argument list of a command, the command's name first, each
/// argument as its raw bytes.
pub uninterp spec fn cmd_args(c: redis::Cmd) -> Seq<Seq<u8>>;

/// The commands a pipeline holds, in order, each as its argument list.
pub uninterp spec fn pipe_cmds(p: redis::Pipeline) -> Seq<Seq<Seq<u8>>>;

/// Whether the pipeline executes as one atomic transaction.
pub uninterp spec fn pipe_atomic(p: redis::Pipeline) -> bool;

/// Relies on `redis::Cmd::new`: a fresh command has no arguments.
#[verifier::external_body]
pub fn cmd_new() -> (r: redis::Cmd)
    ensures
        cmd_args(r) == Seq::<Seq<u8>>::empty(),
{
    redis::Cmd::new()
}

/// Relies on `redis::Cmd::arg` with a byte slice, which appends exactly
/// one binary argument holding those bytes.
#[verifier::external_body]
pub fn cmd_arg_bytes(c: &mut redis::Cmd, a: &[u8])
    ensures
        cmd_args(*final(c)) == cmd_args(*old(c)).push(a@),
{
    c.arg(a);
}

/// Relies on `redis::Pipeline::new`: a fresh pipeline holds no commands
/// and is not atomic.
#[verifier::external_body]
pub fn pipe_new() -> (r: redis::Pipeline)
    ensures
        pipe_cmds(r) == Seq::<Seq<Seq<u8>>>::empty(),
        !pipe_atomic(r),
{
    redis::Pipeline::new()
}

/// Relies on `redis::Pipeline::atomic`: it only turns on transaction
/// mode, leaving the commands as they are.
#[verifier::external_body]
pub fn pipe_atomic_on(p: &mut redis::Pipeline)
    ensures
        pipe_cmds(*final(p)) == pipe_cmds(*old(p)),
        pipe_atomic(*final(p)),
{
    p.atomic();
}

/// Relies on `redis::Pipeline::add_command`: it appends the command,
/// leaving transaction mode as it is.
#[verifier::external_body]
pub fn pipe_add_command(p: &mut redis::Pipeline, c: redis::Cmd)
    ensures
        pipe_cmds(*final(p)) == pipe_cmds(*old(p)).push(cmd_args(c)),
        pipe_atomic(*final(p)) == pipe_atomic(*old(p)),
{
    p.add_command(c);
}

/// Relies on `redis::Pipeline::ignore`: it only drops the last command's
/// response from the pipeline's result, leaving the commands and
/// transaction mode as they are.
#[verifier::external_body]
pub fn pipe_ignore(p: &mut redis::Pipeline)
    ensures
        pipe_cmds(*final(p)) == pipe_cmds(*old(p)),
        pipe_atomic(*final(p)) == pipe_atomic(*old(p)),
{
    p.ignore();
}

} // verus!
