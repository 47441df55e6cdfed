//! Inbound event types and the dispatch contract that applies them.
//!
//! Any event type can apply itself against a cache handle without the cache
//! knowing every event kind: it implements [`UpdateCache`], whose contract
//! ties the executable mutation to the event's declared effect on the
//! cache's mathematical state. Dispatch is synchronous and total: the whole
//! mutation runs before control returns.

use vstd::prelude::*;

use crate::cache::{presence_apply, voice_apply, CacheState, InMemoryCache, emojis_apply,
    emoji_purge_apply, emoji_id_list, index_remove, user_store_remove_guild};
use crate::model::{Emoji, Presence, User, VoiceState, spec_presence_user_id};

verus! {

/// An inbound event that knows how to apply itself to the cache.
///
/// `applied` relates the cache state before the event to the state after
/// it; `update` performs exactly that mutation.
pub trait UpdateCache {
    /// The event's effect: how a post state may follow from a pre state.
    spec fn applied(&self, pre: CacheState, post: CacheState) -> bool;

    /// Applies the event to the cache, consuming it.
    fn update(self, cache: &mut InMemoryCache)
        requires
            old(cache).wf(),
        ensures
            final(cache).wf(),
            final(cache).spec_config() == old(cache).spec_config(),
            self.applied(old(cache).state(), final(cache).state()),
    ;
}

/// A role was deleted from a guild.
pub struct RoleDelete {
    pub guild_id: u64,
    pub role_id: u64,
}

impl UpdateCache for RoleDelete {
    /// The role leaves the role store and its guild's role index.
    open spec fn applied(&self, pre: CacheState, post: CacheState) -> bool {
        if pre.roles.contains_key(self.role_id) {
            post == (CacheState {
                roles: pre.roles.remove(self.role_id),
                guild_roles: index_remove(
                    pre.guild_roles,
                    pre.roles[self.role_id].guild_id,
                    self.role_id,
                ),
                ..pre
            })
        } else {
            post == pre
        }
    }

    fn update(self, cache: &mut InMemoryCache) {
        let _ = cache.delete_role(self.role_id);
    }
}

/// A member left a guild.
pub struct MemberRemove {
    pub guild_id: u64,
    pub user: User,
}

impl UpdateCache for MemberRemove {
    /// The member record and its index entry go, the guild leaves the
    /// user's guild set, and a user with no guilds left is evicted.
    open spec fn applied(&self, pre: CacheState, post: CacheState) -> bool {
        post == (CacheState {
            members: pre.members.remove((self.guild_id, self.user.id)),
            guild_members: index_remove(pre.guild_members, self.guild_id, self.user.id),
            users: user_store_remove_guild(pre.users, self.user.id, self.guild_id),
            ..pre
        })
    }

    fn update(self, cache: &mut InMemoryCache) {
        cache.member_remove(self.guild_id, self.user.id);
    }
}

/// A guild's emoji collection was replaced.
pub struct GuildEmojisUpdate {
    pub emojis: Vec<Emoji>,
    pub guild_id: u64,
}

impl UpdateCache for GuildEmojisUpdate {
    /// Ids no longer carried by the list are purged, in some order, then
    /// every incoming emoji is stored in list order.
    open spec fn applied(&self, pre: CacheState, post: CacheState) -> bool {
        exists|stale: Seq<u64>|
            {
                &&& (#[trigger] stale.no_duplicates())
                &&& (forall|x: u64| stale.contains(x) <==> (pre.guild_emojis.contains_key(
                    self.guild_id,
                ) && pre.guild_emojis[self.guild_id].contains(x)))
                &&& post == emojis_apply(
                    emoji_purge_apply(
                        pre,
                        self.guild_id,
                        stale,
                        emoji_id_list(self.emojis@),
                        stale.len() as int,
                    ),
                    self.guild_id,
                    self.emojis@,
                    self.emojis@.len() as int,
                )
            }
    }

    fn update(self, cache: &mut InMemoryCache) {
        cache.cache_emojis(self.guild_id, self.emojis);
    }
}

/// A user's presence changed within a guild.
pub struct PresenceUpdate {
    pub guild_id: u64,
    pub presence: Presence,
}

impl UpdateCache for PresenceUpdate {
    /// An online user enters the guild's online set, any other status
    /// removes it; a guild without a set is left alone.
    open spec fn applied(&self, pre: CacheState, post: CacheState) -> bool {
        post == (CacheState {
            guild_presences: presence_apply(
                pre.guild_presences,
                self.guild_id,
                spec_presence_user_id(&self.presence.user),
                self.presence.status,
            ),
            ..pre
        })
    }

    fn update(self, cache: &mut InMemoryCache) {
        let user_id = crate::cache::presence_user_id(&self.presence);
        let _ = cache.cache_presence(self.guild_id, user_id, self.presence.status);
    }
}

/// A user's voice state changed.
pub struct VoiceStateUpdate(pub VoiceState);

impl UpdateCache for VoiceStateUpdate {
    /// The primary (guild, user) occupancy is stored or removed, and both
    /// reverse indices follow; an event without a guild id is dropped.
    open spec fn applied(&self, pre: CacheState, post: CacheState) -> bool {
        post == voice_apply(pre, self.0)
    }

    fn update(self, cache: &mut InMemoryCache) {
        cache.cache_voice_state(&self.0);
    }
}


/// A guild was deleted or left.
pub struct GuildDelete {
    pub guild_id: u64,
}

impl UpdateCache for GuildDelete {
    /// The guild record and everything indexed under the guild's id are
    /// cascaded away: channels, emojis, roles, members, presences and
    /// voice states, together with the guild's index sets.
    open spec fn applied(&self, pre: CacheState, post: CacheState) -> bool {
        let g = self.guild_id;
        &&& !post.guilds.contains_key(g)
        &&& !post.guild_channels.contains_key(g)
        &&& !post.guild_emojis.contains_key(g)
        &&& !post.guild_members.contains_key(g)
        &&& !post.guild_presences.contains_key(g)
        &&& !post.guild_roles.contains_key(g)
        &&& !post.voice_state_guilds.contains_key(g)
        &&& (forall|u: u64| !post.voice_states.contains_key((g, u)))
        &&& (pre.guild_channels.contains_key(g) ==> forall|id: u64|
            pre.guild_channels[g].contains(id) ==> !post.channels_guild.contains_key(id))
        &&& (pre.guild_emojis.contains_key(g) ==> forall|id: u64|
            pre.guild_emojis[g].contains(id) ==> !post.emojis.contains_key(id))
        &&& (pre.guild_roles.contains_key(g) ==> forall|id: u64|
            pre.guild_roles[g].contains(id) ==> !post.roles.contains_key(id))
        &&& (pre.guild_members.contains_key(g) ==> forall|u: u64|
            pre.guild_members[g].contains(u) ==> (!post.members.contains_key((g, u)) && (
            post.users.contains_key(u) ==> !post.users[u].1.contains(g))))
    }

    fn update(self, cache: &mut InMemoryCache) {
        let ghost pre = cache.state();
        cache.guild_delete(self.guild_id);
        proof {
            let g = self.guild_id;
            let post = cache.state();
            assert(!post.guilds.contains_key(g));
            assert(!post.guild_channels.contains_key(g));
            assert(!post.guild_emojis.contains_key(g));
            assert(!post.guild_members.contains_key(g));
            assert(!post.guild_presences.contains_key(g));
            assert(!post.guild_roles.contains_key(g));
            assert(!post.voice_state_guilds.contains_key(g));
            assert(forall|u: u64| !post.voice_states.contains_key((g, u)));
            assert(pre.guild_channels.contains_key(g) ==> forall|id: u64|
                pre.guild_channels[g].contains(id) ==> !post.channels_guild.contains_key(id));
            assert(pre.guild_emojis.contains_key(g) ==> forall|id: u64|
                pre.guild_emojis[g].contains(id) ==> !post.emojis.contains_key(id));
            assert(pre.guild_roles.contains_key(g) ==> forall|id: u64|
                pre.guild_roles[g].contains(id) ==> !post.roles.contains_key(id));
            if pre.guild_members.contains_key(g) {
                assert forall|u: u64| pre.guild_members[g].contains(u) implies (
                !post.members.contains_key((g, u)) && (post.users.contains_key(u)
                    ==> !post.users[u].1.contains(g))) by {
                    assert(!post.members.contains_key((g, u)) && (post.users.contains_key(u)
                        ==> !post.users[u].1.contains(g)));
                }
            }
        }
    }
}

} // verus!
