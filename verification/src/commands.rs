//! Preconditions shared by the command handlers that query the cache.

use vstd::prelude::*;

verus! {

/// Why a command cannot run.
#[derive(Debug)]
pub enum CommandError {
    /// A precondition of the command does not hold; carries the reason
    /// shown to the user.
    FailedPrecondition(&'static str),
}

/// The message a command was issued by, reduced to what preconditions
/// inspect.
#[derive(Debug)]
pub struct MessageContext {
    /// The guild the message was sent in, if any.
    pub guild_id: Option<u64>,
}

/// The context a command runs in.
#[derive(Debug)]
pub struct Context {
    pub message: MessageContext,
}

/// Requires a command to be run inside a guild: returns the guild's id,
/// or a failed precondition for direct messages.
pub fn require_in_guild(ctx: &Context) -> (r: Result<u64, CommandError>)
    ensures
        match ctx.message.guild_id {
            Some(g) => r matches Ok(id) && id == g,
            None => r matches Err(e) && (e matches CommandError::FailedPrecondition(m)
                && m@ == "Command must be run in a server."@),
        },
{
    match ctx.message.guild_id {
        Some(g) => Ok(g),
        None => Err(CommandError::FailedPrecondition("Command must be run in a server.")),
    }
}

} // verus!
