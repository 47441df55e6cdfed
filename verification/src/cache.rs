//! The in-process snapshot of live remote-platform state.
//!
//! One store per entity kind holds the authoritative records; secondary
//! indices keyed by guild id hold only identifiers. Every write operation
//! states over [`CacheState`] exactly which entries it adds, replaces or
//! removes, and preserves the well-formedness invariant [`InMemoryCache::wf`]:
//! indices stay consistent with the primary stores, a user record exists
//! exactly as long as its guild set is non-empty, and the voice-state
//! reverse indices hold exactly the occupied channels and guilds.

use vstd::prelude::*;

use crate::config::{Config, InMemoryCacheBuilder, ResourceType, RESOURCE_CHANNEL, RESOURCE_EMOJI,
    RESOURCE_MEMBER, RESOURCE_PRESENCE, RESOURCE_ROLE, RESOURCE_VOICE_STATE};
use crate::model::{CachedEmoji, CachedGuild, CachedMember, CachedMessage, CurrentUser, Emoji,
    Group, Guild, GuildChannel, Member, PartialMember, Presence, PrivateChannel, Role, Status,
    User, UserOrId, VoiceState, spec_presence_user_id, ADMINISTRATOR, ALL_PERMISSIONS};
use crate::store::{IdMap, IdSet, PairMap, PairSet};

verus! {

/// A guild-scoped record together with the id of the guild that owns it,
/// kept so that deleting the guild can cascade.
#[derive(Debug)]
pub struct GuildItem<T> {
    pub data: T,
    pub guild_id: u64,
}

/// The mathematical state of the cache: one map or set per store.
pub struct CacheState {
    pub channels_guild: Map<u64, GuildItem<GuildChannel>>,
    pub channels_private: Map<u64, PrivateChannel>,
    pub current_user: Option<CurrentUser>,
    pub emojis: Map<u64, GuildItem<CachedEmoji>>,
    pub groups: Map<u64, Group>,
    pub guilds: Map<u64, CachedGuild>,
    pub guild_channels: Map<u64, Set<u64>>,
    pub guild_emojis: Map<u64, Set<u64>>,
    pub guild_members: Map<u64, Set<u64>>,
    pub guild_presences: Map<u64, Set<u64>>,
    pub guild_roles: Map<u64, Set<u64>>,
    pub members: Map<(u64, u64), CachedMember>,
    pub messages: Map<u64, Seq<CachedMessage>>,
    pub roles: Map<u64, GuildItem<Role>>,
    pub unavailable_guilds: Set<u64>,
    pub users: Map<u64, (User, Set<u64>)>,
    pub voice_states: Map<(u64, u64), u64>,
    pub voice_state_channels: Map<u64, Set<(u64, u64)>>,
    pub voice_state_guilds: Map<u64, Set<u64>>,
}

/// Projects an id-set store to its per-key sets.
pub open spec fn sets_of(m: Map<u64, IdSet>) -> Map<u64, Set<u64>> {
    Map::new(|g: u64| m.contains_key(g), |g: u64| m[g]@)
}

/// Projects a pair-set store to its per-key sets.
pub open spec fn pair_sets_of(m: Map<u64, PairSet>) -> Map<u64, Set<(u64, u64)>> {
    Map::new(|g: u64| m.contains_key(g), |g: u64| m[g]@)
}

/// Projects the user store to its records and guild-id sets.
pub open spec fn users_of(m: Map<u64, (User, IdSet)>) -> Map<u64, (User, Set<u64>)> {
    Map::new(|g: u64| m.contains_key(g), |g: u64| (m[g].0, m[g].1@))
}

/// Projects the message store to its per-channel sequences.
pub open spec fn messages_of(m: Map<u64, Vec<CachedMessage>>) -> Map<u64, Seq<CachedMessage>> {
    Map::new(|c: u64| m.contains_key(c), |c: u64| m[c]@)
}

/// The set of occupants that the channel reverse index must hold for each
/// channel: exactly the (guild, user) pairs whose voice state names it.
pub open spec fn channels_index_of(vs: Map<(u64, u64), u64>) -> Map<u64, Set<(u64, u64)>> {
    Map::new(
        |c: u64| exists|p: (u64, u64)| #[trigger] vs.contains_key(p) && vs[p] == c,
        |c: u64| Set::new(|p: (u64, u64)| vs.contains_key(p) && vs[p] == c),
    )
}

/// The set of users that the guild reverse index must hold for each guild:
/// exactly the users with a voice state in it.
pub open spec fn guilds_index_of(vs: Map<(u64, u64), u64>) -> Map<u64, Set<u64>> {
    Map::new(
        |g: u64| exists|u: u64| #[trigger] vs.contains_key((g, u)),
        |g: u64| Set::new(|u: u64| vs.contains_key((g, u))),
    )
}

/// The voice-state reverse indices hold exactly what the primary mapping
/// holds: a channel or guild is indexed while it has at least one occupant,
/// and an index entry is dropped when its last occupant leaves.
pub open spec fn voice_indices_consistent(st: CacheState) -> bool {
    &&& st.voice_state_channels == channels_index_of(st.voice_states)
    &&& st.voice_state_guilds == guilds_index_of(st.voice_states)
}

/// A user record exists exactly as long as it is reachable through at least
/// one guild.
pub open spec fn user_sets_nonempty(st: CacheState) -> bool {
    forall|u: u64| #[trigger] st.users.contains_key(u) ==> st.users[u].1
        != Set::<u64>::empty()
}

/// A thread-unsafe in-process cache of remote chat-platform state.
///
/// Entities are created and refreshed only by inbound update events and are
/// read through id-keyed getters; readers receive references into the
/// current snapshot. Deleting a guild cascades over every store indexed
/// under its id.
pub struct InMemoryCache {
    config: Config,
    channels_guild: IdMap<GuildItem<GuildChannel>>,
    channels_private: IdMap<PrivateChannel>,
    current_user: Option<CurrentUser>,
    emojis: IdMap<GuildItem<CachedEmoji>>,
    groups: IdMap<Group>,
    guilds: IdMap<CachedGuild>,
    guild_channels: IdMap<IdSet>,
    guild_emojis: IdMap<IdSet>,
    guild_members: IdMap<IdSet>,
    guild_presences: IdMap<IdSet>,
    guild_roles: IdMap<IdSet>,
    members: PairMap<CachedMember>,
    messages: IdMap<Vec<CachedMessage>>,
    roles: IdMap<GuildItem<Role>>,
    unavailable_guilds: IdSet,
    users: IdMap<(User, IdSet)>,
    voice_states: PairMap<u64>,
    voice_state_channels: IdMap<PairSet>,
    voice_state_guilds: IdMap<IdSet>,
}

impl InMemoryCache {
    /// The mathematical state of every store.
    pub closed spec fn state(&self) -> CacheState {
        CacheState {
            channels_guild: self.channels_guild@,
            channels_private: self.channels_private@,
            current_user: self.current_user,
            emojis: self.emojis@,
            groups: self.groups@,
            guilds: self.guilds@,
            guild_channels: sets_of(self.guild_channels@),
            guild_emojis: sets_of(self.guild_emojis@),
            guild_members: sets_of(self.guild_members@),
            guild_presences: sets_of(self.guild_presences@),
            guild_roles: sets_of(self.guild_roles@),
            members: self.members@,
            messages: messages_of(self.messages@),
            roles: self.roles@,
            unavailable_guilds: self.unavailable_guilds@,
            users: users_of(self.users@),
            voice_states: self.voice_states@,
            voice_state_channels: pair_sets_of(self.voice_state_channels@),
            voice_state_guilds: sets_of(self.voice_state_guilds@),
        }
    }

    /// The configuration the cache was built with.
    pub closed spec fn spec_config(&self) -> Config {
        self.config
    }

    /// Every store is well formed and the indices are consistent.
    pub closed spec fn wf(&self) -> bool {
        &&& self.channels_guild.wf()
        &&& self.channels_private.wf()
        &&& self.emojis.wf()
        &&& self.groups.wf()
        &&& self.guilds.wf()
        &&& self.guild_channels.wf()
        &&& self.guild_emojis.wf()
        &&& self.guild_members.wf()
        &&& self.guild_presences.wf()
        &&& self.guild_roles.wf()
        &&& self.members.wf()
        &&& self.messages.wf()
        &&& self.roles.wf()
        &&& self.unavailable_guilds.wf()
        &&& self.users.wf()
        &&& self.voice_states.wf()
        &&& self.voice_state_channels.wf()
        &&& self.voice_state_guilds.wf()
        &&& forall|g: u64| #[trigger] self.guild_channels@.contains_key(g)
            ==> self.guild_channels@[g].wf()
        &&& forall|g: u64| #[trigger] self.guild_emojis@.contains_key(g)
            ==> self.guild_emojis@[g].wf()
        &&& forall|g: u64| #[trigger] self.guild_members@.contains_key(g)
            ==> self.guild_members@[g].wf()
        &&& forall|g: u64| #[trigger] self.guild_presences@.contains_key(g)
            ==> self.guild_presences@[g].wf()
        &&& forall|g: u64| #[trigger] self.guild_roles@.contains_key(g)
            ==> self.guild_roles@[g].wf()
        &&& forall|u: u64| #[trigger] self.users@.contains_key(u) ==> self.users@[u].1.wf()
        &&& forall|c: u64| #[trigger] self.voice_state_channels@.contains_key(c)
            ==> self.voice_state_channels@[c].wf()
        &&& forall|g: u64| #[trigger] self.voice_state_guilds@.contains_key(g)
            ==> self.voice_state_guilds@[g].wf()
        &&& forall|c: u64| #[trigger] self.messages@.contains_key(c) ==> msgs_sorted(
            self.messages@[c]@,
        ) && self.messages@[c]@.len() <= self.config.message_cache_size
        &&& voice_indices_consistent(self.state())
        &&& user_sets_nonempty(self.state())
    }
}


impl InMemoryCache {
    /// Creates a new, empty cache with the default configuration.
    pub fn new() -> (r: Self)
        ensures
            r.wf(),
            r.state() == empty_state(),
            r.spec_config().resource_types.bits == crate::config::RESOURCE_ALL,
    {
        Self::new_with_config(Config::default())
    }

    /// Creates a new, empty cache with the given configuration.
    pub fn new_with_config(config: Config) -> (r: Self)
        ensures
            r.wf(),
            r.state() == empty_state(),
            r.spec_config() == config,
    {
        let r = InMemoryCache {
            config,
            channels_guild: IdMap::new(),
            channels_private: IdMap::new(),
            current_user: None,
            emojis: IdMap::new(),
            groups: IdMap::new(),
            guilds: IdMap::new(),
            guild_channels: IdMap::new(),
            guild_emojis: IdMap::new(),
            guild_members: IdMap::new(),
            guild_presences: IdMap::new(),
            guild_roles: IdMap::new(),
            members: PairMap::new(),
            messages: IdMap::new(),
            roles: IdMap::new(),
            unavailable_guilds: IdSet::new(),
            users: IdMap::new(),
            voice_states: PairMap::new(),
            voice_state_channels: IdMap::new(),
            voice_state_guilds: IdMap::new(),
        };
        proof {
            lemma_empty_projections();
            assert(r.state() =~= empty_state());
        }
        r
    }

    /// Creates a builder for a cache with a custom configuration.
    pub fn builder() -> (r: InMemoryCacheBuilder)
        ensures
            r.spec_config().resource_types.bits == crate::config::RESOURCE_ALL,
            r.spec_config().message_cache_size == 100,
    {
        InMemoryCacheBuilder::new()
    }

    /// Returns a copy of the configuration.
    pub fn config(&self) -> (r: Config)
        ensures
            r == self.spec_config(),
    {
        self.config
    }

    /// Whether the configuration stores the given resource kind.
    fn wants(&self, resource_type: ResourceType) -> (r: bool)
        ensures
            r == self.spec_config().resource_types.spec_contains(resource_type),
    {
        self.config.resource_types().contains(resource_type)
    }

    /// Empties every store; equivalent to a freshly created cache.
    pub fn clear(&mut self)
        ensures
            final(self).wf(),
            final(self).state() == empty_state(),
            final(self).spec_config() == old(self).spec_config(),
    {
        self.channels_guild.clear();
        self.channels_private.clear();
        self.current_user = None;
        self.emojis.clear();
        self.groups.clear();
        self.guilds.clear();
        self.guild_channels.clear();
        self.guild_emojis.clear();
        self.guild_members.clear();
        self.guild_presences.clear();
        self.guild_roles.clear();
        self.members.clear();
        self.messages.clear();
        self.roles.clear();
        self.unavailable_guilds.clear();
        self.users.clear();
        self.voice_states.clear();
        self.voice_state_channels.clear();
        self.voice_state_guilds.clear();
        proof {
            lemma_empty_projections();
            assert(self.state() =~= empty_state());
        }
    }

    /// Finds which voice channel a user occupies in a guild.
    pub fn voice_state(&self, guild_id: u64, user_id: u64) -> (r: Option<u64>)
        requires
            self.wf(),
        ensures
            match r {
                Some(c) => self.state().voice_states.contains_key((guild_id, user_id))
                    && self.state().voice_states[(guild_id, user_id)] == c,
                None => !self.state().voice_states.contains_key((guild_id, user_id)),
            },
    {
        match self.voice_states.get(guild_id, user_id) {
            Some(c) => Some(*c),
            None => None,
        }
    }

    /// Finds every user currently in the given voice channel, over all
    /// guilds.
    pub fn voice_channel_users(&self, channel_id: u64) -> (r: Vec<u64>)
        requires
            self.wf(),
        ensures
            forall|u: u64| r@.contains(u) <==> exists|g: u64| #[trigger]
                self.state().voice_states.contains_key((g, u)) && self.state().voice_states[
                    (g, u)
                ] == channel_id,
            r@.len() == Set::new(
                |p: (u64, u64)|
                    self.state().voice_states.contains_key(p) && self.state().voice_states[p]
                        == channel_id,
            ).len(),
    {
        let pairs = self.voice_states.keys();
        let mut out: Vec<u64> = Vec::new();
        let mut i: usize = 0;
        while i < pairs.len()
            invariant
                self.wf(),
                i <= pairs@.len(),
                forall|p: (u64, u64)| pairs@.contains(p) <==> self.state()
                    .voice_states.contains_key(p),
                out@ == users_in_channel(
                    pairs@,
                    self.state().voice_states,
                    channel_id,
                    i as int,
                ),
            decreases pairs@.len() - i,
        {
            let (g, u) = (pairs[i].0, pairs[i].1);
            proof {
                assert(pairs@.contains(pairs@[i as int]));
                assert(pairs@[i as int] == (g, u));
            }
            match self.voice_states.get(g, u) {
                Some(c) => {
                    if *c == channel_id {
                        out.push(u);
                    }
                },
                None => {
                    proof {
                        assert(false);
                    }
                },
            }
            i = i + 1;
        }
        proof {
            lemma_users_in_channel(
                pairs@,
                self.state().voice_states,
                channel_id,
                pairs@.len() as int,
            );
            assert forall|u: u64| out@.contains(u) implies (exists|g: u64| #[trigger]
                self.state().voice_states.contains_key((g, u)) && self.state().voice_states[
                    (g, u)
                ] == channel_id) by {
                let j = choose|j: int|
                    0 <= j < pairs@.len() && (#[trigger] pairs@[j]).1 == u && self.state()
                        .voice_states.contains_key(pairs@[j]) && self.state().voice_states[
                        pairs@[j]
                    ] == channel_id;
                assert(pairs@[j] == (pairs@[j].0, pairs@[j].1));
                assert(self.state().voice_states.contains_key((pairs@[j].0, u)));
            }
            assert forall|u: u64|
                (exists|g: u64| #[trigger] self.state().voice_states.contains_key((g, u))
                    && self.state().voice_states[(g, u)] == channel_id) implies out@.contains(
                u,
            ) by {
                let g = choose|g: u64| #[trigger] self.state().voice_states.contains_key((g, u))
                    && self.state().voice_states[(g, u)] == channel_id;
                assert(pairs@.contains((g, u)));
                let j = choose|j: int| 0 <= j < pairs@.len() && pairs@[j] == (g, u);
                assert((pairs@[j]).1 == u && self.state().voice_states.contains_key(pairs@[j]));
            }
            let matching = Set::new(
                |p: (u64, u64)|
                    self.state().voice_states.contains_key(p) && self.state().voice_states[p]
                        == channel_id,
            );
            lemma_users_in_channel_len(
                pairs@,
                self.state().voice_states,
                channel_id,
                pairs@.len() as int,
            );
            assert(pairs@.take(pairs@.len() as int) =~= pairs@);
            assert(matching.intersect(pairs@.to_set()) =~= matching);
        }
        out
    }

    /// The users currently in the given voice channel, from the reverse
    /// index: absent if the channel has no occupants.
    pub fn voice_channel_states(&self, channel_id: u64) -> (r: Option<Vec<(u64, u64)>>)
        requires
            self.wf(),
        ensures
            match r {
                Some(v) => self.state().voice_state_channels.contains_key(channel_id)
                    && v@.len() == self.state().voice_state_channels[channel_id].len()
                    && forall|p: (u64, u64)| v@.contains(p) <==> self.state()
                        .voice_state_channels[channel_id].contains(p),
                None => !self.state().voice_state_channels.contains_key(channel_id),
            },
    {
        match self.voice_state_channels.get(channel_id) {
            Some(occupants) => Some(occupants.to_vec()),
            None => None,
        }
    }

    /// Gets a guild channel by id.
    pub fn guild_channel(&self, channel_id: u64) -> (r: Option<&GuildChannel>)
        requires
            self.wf(),
        ensures
            match r {
                Some(c) => self.state().channels_guild.contains_key(channel_id) && *c
                    == self.state().channels_guild[channel_id].data,
                None => !self.state().channels_guild.contains_key(channel_id),
            },
    {
        match self.channels_guild.get(channel_id) {
            Some(item) => Some(&item.data),
            None => None,
        }
    }

    /// Gets the current user, if one has been stored.
    pub fn current_user(&self) -> (r: Option<&CurrentUser>)
        ensures
            match r {
                Some(u) => self.state().current_user == Some(*u),
                None => self.state().current_user is None,
            },
    {
        match &self.current_user {
            Some(u) => Some(u),
            None => None,
        }
    }

    /// Gets an emoji by id.
    pub fn emoji(&self, emoji_id: u64) -> (r: Option<&CachedEmoji>)
        requires
            self.wf(),
        ensures
            match r {
                Some(e) => self.state().emojis.contains_key(emoji_id) && *e == self.state()
                    .emojis[emoji_id].data,
                None => !self.state().emojis.contains_key(emoji_id),
            },
    {
        match self.emojis.get(emoji_id) {
            Some(item) => Some(&item.data),
            None => None,
        }
    }

    /// Gets a group by channel id.
    pub fn group(&self, channel_id: u64) -> (r: Option<&Group>)
        requires
            self.wf(),
        ensures
            match r {
                Some(g) => self.state().groups.contains_key(channel_id) && *g == self.state()
                    .groups[channel_id],
                None => !self.state().groups.contains_key(channel_id),
            },
    {
        self.groups.get(channel_id)
    }

    /// The ids of every cached guild.
    pub fn guilds(&self) -> (r: Vec<u64>)
        requires
            self.wf(),
        ensures
            r@.no_duplicates(),
            forall|g: u64| r@.contains(g) <==> self.state().guilds.contains_key(g),
    {
        self.guilds.keys()
    }

    /// Gets a guild by id.
    pub fn guild(&self, guild_id: u64) -> (r: Option<&CachedGuild>)
        requires
            self.wf(),
        ensures
            match r {
                Some(g) => self.state().guilds.contains_key(guild_id) && *g == self.state()
                    .guilds[guild_id],
                None => !self.state().guilds.contains_key(guild_id),
            },
    {
        self.guilds.get(guild_id)
    }

    /// The ids of the channels of a guild.
    pub fn guild_channels(&self, guild_id: u64) -> (r: Option<Vec<u64>>)
        requires
            self.wf(),
        ensures
            match r {
                Some(v) => self.state().guild_channels.contains_key(guild_id) && v@.len()
                    == self.state().guild_channels[guild_id].len() && v@.no_duplicates()
                    && forall|x: u64| v@.contains(x) <==> self.state().guild_channels[
                        guild_id
                    ].contains(x),
                None => !self.state().guild_channels.contains_key(guild_id),
            },
    {
        match self.guild_channels.get(guild_id) {
            Some(s) => Some(s.to_vec()),
            None => None,
        }
    }

    /// The ids of the emojis of a guild.
    pub fn guild_emojis(&self, guild_id: u64) -> (r: Option<Vec<u64>>)
        requires
            self.wf(),
        ensures
            match r {
                Some(v) => self.state().guild_emojis.contains_key(guild_id) && v@.len()
                    == self.state().guild_emojis[guild_id].len() && v@.no_duplicates()
                    && forall|x: u64| v@.contains(x) <==> self.state().guild_emojis[
                        guild_id
                    ].contains(x),
                None => !self.state().guild_emojis.contains_key(guild_id),
            },
    {
        match self.guild_emojis.get(guild_id) {
            Some(s) => Some(s.to_vec()),
            None => None,
        }
    }

    /// The user ids of the cached members of a guild.
    pub fn guild_members(&self, guild_id: u64) -> (r: Option<Vec<u64>>)
        requires
            self.wf(),
        ensures
            match r {
                Some(v) => self.state().guild_members.contains_key(guild_id) && v@.len()
                    == self.state().guild_members[guild_id].len() && v@.no_duplicates()
                    && forall|x: u64| v@.contains(x) <==> self.state().guild_members[
                        guild_id
                    ].contains(x),
                None => !self.state().guild_members.contains_key(guild_id),
            },
    {
        match self.guild_members.get(guild_id) {
            Some(s) => Some(s.to_vec()),
            None => None,
        }
    }

    /// The ids of the users of a guild that are currently online.
    pub fn guild_online(&self, guild_id: u64) -> (r: Option<Vec<u64>>)
        requires
            self.wf(),
        ensures
            match r {
                Some(v) => self.state().guild_presences.contains_key(guild_id) && v@.len()
                    == self.state().guild_presences[guild_id].len() && v@.no_duplicates()
                    && forall|x: u64| v@.contains(x) <==> self.state().guild_presences[
                        guild_id
                    ].contains(x),
                None => !self.state().guild_presences.contains_key(guild_id),
            },
    {
        match self.guild_presences.get(guild_id) {
            Some(s) => Some(s.to_vec()),
            None => None,
        }
    }

    /// The ids of the roles of a guild.
    pub fn guild_roles(&self, guild_id: u64) -> (r: Option<Vec<u64>>)
        requires
            self.wf(),
        ensures
            match r {
                Some(v) => self.state().guild_roles.contains_key(guild_id) && v@.len()
                    == self.state().guild_roles[guild_id].len() && v@.no_duplicates()
                    && forall|x: u64| v@.contains(x) <==> self.state().guild_roles[
                        guild_id
                    ].contains(x),
                None => !self.state().guild_roles.contains_key(guild_id),
            },
    {
        match self.guild_roles.get(guild_id) {
            Some(s) => Some(s.to_vec()),
            None => None,
        }
    }

    /// Gets a member by guild id and user id.
    pub fn member(&self, guild_id: u64, user_id: u64) -> (r: Option<&CachedMember>)
        requires
            self.wf(),
        ensures
            match r {
                Some(m) => self.state().members.contains_key((guild_id, user_id)) && *m
                    == self.state().members[(guild_id, user_id)],
                None => !self.state().members.contains_key((guild_id, user_id)),
            },
    {
        self.members.get(guild_id, user_id)
    }

    /// Gets a message by channel id and message id.
    pub fn message(&self, channel_id: u64, message_id: u64) -> (r: Option<&CachedMessage>)
        requires
            self.wf(),
        ensures
            match r {
                Some(m) => self.state().messages.contains_key(channel_id) && self.state()
                    .messages[channel_id].contains(*m) && m.id == message_id,
                None => !self.state().messages.contains_key(channel_id) || !msg_ids_has(
                    self.state().messages[channel_id],
                    message_id,
                ),
            },
    {
        let channel = match self.messages.get(channel_id) {
            Some(c) => c,
            None => {
                return None;
            },
        };
        proof {
            assert(self.messages@.contains_key(channel_id));
            assert(self.state().messages.contains_key(channel_id));
            assert(self.state().messages[channel_id] == self.messages@[channel_id]@);
        }
        let mut i: usize = 0;
        while i < channel.len()
            invariant
                i <= channel@.len(),
                *channel == self.messages@[channel_id],
                self.state().messages.contains_key(channel_id),
                self.state().messages[channel_id] == channel@,
                forall|j: int| 0 <= j < i ==> (#[trigger] channel@[j]).id != message_id,
            decreases channel@.len() - i,
        {
            if channel[i].id == message_id {
                proof {
                    assert(self.state().messages[channel_id][i as int] == channel@[i as int]);
                    assert(self.state().messages[channel_id].contains(channel@[i as int]));
                }
                return Some(&channel[i]);
            }
            i = i + 1;
        }
        proof {
            if msg_ids_has(channel@, message_id) {
                let j = choose|j: int|
                    0 <= j < channel@.len() && (#[trigger] channel@[j]).id == message_id;
                assert(false);
            }
        }
        None
    }

    /// Whether a user is marked online in a guild.
    pub fn presence(&self, guild_id: u64, user_id: u64) -> (r: bool)
        requires
            self.wf(),
        ensures
            r == (self.state().guild_presences.contains_key(guild_id) && self.state()
                .guild_presences[guild_id].contains(user_id)),
    {
        match self.guild_presences.get(guild_id) {
            Some(s) => s.contains(user_id),
            None => false,
        }
    }

    /// Gets a private channel by id.
    pub fn private_channel(&self, channel_id: u64) -> (r: Option<&PrivateChannel>)
        requires
            self.wf(),
        ensures
            match r {
                Some(c) => self.state().channels_private.contains_key(channel_id) && *c
                    == self.state().channels_private[channel_id],
                None => !self.state().channels_private.contains_key(channel_id),
            },
    {
        self.channels_private.get(channel_id)
    }

    /// Gets a role by id.
    pub fn role(&self, role_id: u64) -> (r: Option<&Role>)
        requires
            self.wf(),
        ensures
            match r {
                Some(x) => self.state().roles.contains_key(role_id) && *x == self.state()
                    .roles[role_id].data,
                None => !self.state().roles.contains_key(role_id),
            },
    {
        match self.roles.get(role_id) {
            Some(item) => Some(&item.data),
            None => None,
        }
    }

    /// Gets a user by id.
    pub fn user(&self, user_id: u64) -> (r: Option<&User>)
        requires
            self.wf(),
        ensures
            match r {
                Some(u) => self.state().users.contains_key(user_id) && *u == self.state()
                    .users[user_id].0,
                None => !self.state().users.contains_key(user_id),
            },
    {
        match self.users.get(user_id) {
            Some(entry) => Some(&entry.0),
            None => None,
        }
    }

    /// The ids of the guilds through which a user is currently reachable.
    pub fn user_guilds(&self, user_id: u64) -> (r: Option<Vec<u64>>)
        requires
            self.wf(),
        ensures
            match r {
                Some(v) => self.state().users.contains_key(user_id) && v@.len() == self.state()
                    .users[user_id].1.len() && v@.no_duplicates() && forall|x: u64|
                    v@.contains(x) <==> self.state().users[user_id].1.contains(x),
                None => !self.state().users.contains_key(user_id),
            },
    {
        match self.users.get(user_id) {
            Some(entry) => Some(entry.1.to_vec()),
            None => None,
        }
    }
}


/// The users among the first `n` voice-state keys whose state names the
/// given channel, in key order.
pub open spec fn users_in_channel(
    pairs: Seq<(u64, u64)>,
    vs: Map<(u64, u64), u64>,
    channel: u64,
    n: int,
) -> Seq<u64>
    decreases n,
{
    if n <= 0 {
        Seq::empty()
    } else {
        let rest = users_in_channel(pairs, vs, channel, n - 1);
        if vs.contains_key(pairs[n - 1]) && vs[pairs[n - 1]] == channel {
            rest.push(pairs[n - 1].1)
        } else {
            rest
        }
    }
}

/// The filtered user list has one element per matching voice-state pair.
proof fn lemma_users_in_channel_len(
    pairs: Seq<(u64, u64)>,
    vs: Map<(u64, u64), u64>,
    channel: u64,
    n: int,
)
    requires
        0 <= n <= pairs.len(),
        pairs.no_duplicates(),
    ensures
        ({
            let matching = Set::new(
                |p: (u64, u64)| vs.contains_key(p) && vs[p] == channel,
            );
            let seen = matching.intersect(pairs.take(n).to_set());
            &&& seen.finite()
            &&& users_in_channel(pairs, vs, channel, n).len() == seen.len()
        }),
    decreases n,
{
    let matching = Set::new(|p: (u64, u64)| vs.contains_key(p) && vs[p] == channel);
    if n == 0 {
        assert(pairs.take(0) =~= Seq::<(u64, u64)>::empty());
        assert(matching.intersect(pairs.take(0).to_set()) =~= Set::<(u64, u64)>::empty());
    } else {
        lemma_users_in_channel_len(pairs, vs, channel, n - 1);
        let prev_seen = matching.intersect(pairs.take(n - 1).to_set());
        let seen = matching.intersect(pairs.take(n).to_set());
        let p = pairs[n - 1];
        assert(pairs.take(n)[n - 1] == p);
        assert forall|q: (u64, u64)| pairs.take(n).to_set().contains(q) implies (pairs.take(
            n - 1,
        ).to_set().contains(q) || q == p) by {
            let j = choose|j: int| 0 <= j < n && (#[trigger] pairs.take(n)[j]) == q;
            if j < n - 1 {
                assert(pairs.take(n - 1)[j] == q);
            }
        }
        assert forall|q: (u64, u64)|
            (pairs.take(n - 1).to_set().contains(q) || q == p) implies pairs.take(
            n,
        ).to_set().contains(q) by {
            if q == p {
                assert(pairs.take(n)[n - 1] == q);
            } else {
                let j = choose|j: int| 0 <= j < n - 1 && (#[trigger] pairs.take(n - 1)[j]) == q;
                assert(pairs.take(n)[j] == q);
            }
        }
        assert(!pairs.take(n - 1).to_set().contains(p)) by {
            if pairs.take(n - 1).to_set().contains(p) {
                let j = choose|j: int| 0 <= j < n - 1 && (#[trigger] pairs.take(n - 1)[j]) == p;
                assert(pairs[j] == pairs[n - 1]);
            }
        }
        if vs.contains_key(p) && vs[p] == channel {
            assert(seen =~= prev_seen.insert(p));
            assert(!prev_seen.contains(p));
        } else {
            assert(seen =~= prev_seen);
        }
    }
}

proof fn lemma_users_in_channel(
    pairs: Seq<(u64, u64)>,
    vs: Map<(u64, u64), u64>,
    channel: u64,
    n: int,
)
    requires
        n <= pairs.len(),
    ensures
        forall|u: u64| users_in_channel(pairs, vs, channel, n).contains(u) <==> exists|j: int|
            0 <= j < n && (#[trigger] pairs[j]).1 == u && vs.contains_key(pairs[j]) && vs[
                pairs[j]
            ] == channel,
    decreases n,
{
    if n > 0 {
        lemma_users_in_channel(pairs, vs, channel, n - 1);
        let rest = users_in_channel(pairs, vs, channel, n - 1);
        let cur = users_in_channel(pairs, vs, channel, n);
        assert forall|u: u64| cur.contains(u) implies exists|j: int|
            0 <= j < n && (#[trigger] pairs[j]).1 == u && vs.contains_key(pairs[j]) && vs[
                pairs[j]
            ] == channel by {
            let k = choose|k: int| 0 <= k < cur.len() && cur[k] == u;
            if vs.contains_key(pairs[n - 1]) && vs[pairs[n - 1]] == channel {
                if k < cur.len() - 1 {
                    assert(rest[k] == u);
                    assert(rest.contains(u));
                } else {
                    assert((pairs[n - 1]).1 == u);
                }
            } else {
                assert(rest.contains(u));
            }
        }
        assert forall|u: u64|
            (exists|j: int|
                0 <= j < n && (#[trigger] pairs[j]).1 == u && vs.contains_key(pairs[j]) && vs[
                    pairs[j]
                ] == channel) implies cur.contains(u) by {
            let j = choose|j: int|
                0 <= j < n && (#[trigger] pairs[j]).1 == u && vs.contains_key(pairs[j]) && vs[
                    pairs[j]
                ] == channel;
            if j < n - 1 {
                assert(rest.contains(u));
                let k = choose|k: int| 0 <= k < rest.len() && rest[k] == u;
                if vs.contains_key(pairs[n - 1]) && vs[pairs[n - 1]] == channel {
                    assert(cur[k] == u);
                } else {
                    assert(cur == rest);
                }
            } else {
                assert(vs.contains_key(pairs[n - 1]) && vs[pairs[n - 1]] == channel);
                assert(cur[cur.len() - 1] == (pairs[n - 1]).1);
            }
        }
    }
}


/// Adds an id to a guild-keyed index set, creating the set if the guild has
/// none yet.
pub open spec fn index_add(m: Map<u64, Set<u64>>, g: u64, id: u64) -> Map<u64, Set<u64>> {
    if m.contains_key(g) {
        m.insert(g, m[g].insert(id))
    } else {
        m.insert(g, Set::empty().insert(id))
    }
}

/// Removes an id from a guild's index set, if the guild has one; never
/// creates or drops the set itself.
pub open spec fn index_remove(m: Map<u64, Set<u64>>, g: u64, id: u64) -> Map<u64, Set<u64>> {
    if m.contains_key(g) {
        m.insert(g, m[g].remove(id))
    } else {
        m
    }
}

/// How one user-store upsert changes the user store. A stored user equal
/// in value to the incoming one keeps its record; an unequal one is
/// replaced by the incoming record. Either way memberships accumulate:
/// the guild joins whatever guild set the user already had, since the
/// user stays reachable through its other guilds' member records.
/// Without a guild id nothing new is stored.
pub open spec fn user_store_upsert(
    us: Map<u64, (User, Set<u64>)>,
    user: User,
    guild_id: Option<u64>,
) -> Map<u64, (User, Set<u64>)> {
    let prior_set = if us.contains_key(user.id) {
        us[user.id].1
    } else {
        Set::empty()
    };
    if us.contains_key(user.id) && us[user.id].0.eq_val(&user) {
        match guild_id {
            Option::Some(g) => us.insert(user.id, (us[user.id].0, prior_set.insert(g))),
            Option::None => us,
        }
    } else {
        match guild_id {
            Option::Some(g) => us.insert(user.id, (user, prior_set.insert(g))),
            Option::None => us,
        }
    }
}

/// How removing one guild membership changes the user store: the guild
/// leaves the user's guild set, and a user with no guilds left is evicted.
pub open spec fn user_store_remove_guild(
    us: Map<u64, (User, Set<u64>)>,
    user_id: u64,
    guild_id: u64,
) -> Map<u64, (User, Set<u64>)> {
    if us.contains_key(user_id) {
        let shrunk = us[user_id].1.remove(guild_id);
        if shrunk == Set::<u64>::empty() {
            us.remove(user_id)
        } else {
            us.insert(user_id, (us[user_id].0, shrunk))
        }
    } else {
        us
    }
}

/// How one voice-state update changes the primary mapping: a channel id is
/// stored under the (guild, user) pair, an absent channel id removes the
/// pair.
pub open spec fn voice_update(
    vs: Map<(u64, u64), u64>,
    guild_id: u64,
    user_id: u64,
    channel_id: Option<u64>,
) -> Map<(u64, u64), u64> {
    match channel_id {
        Option::Some(c) => vs.insert((guild_id, user_id), c),
        Option::None => vs.remove((guild_id, user_id)),
    }
}

proof fn lemma_sets_of_insert(m: Map<u64, IdSet>, g: u64, s: IdSet)
    ensures
        sets_of(m.insert(g, s)) == sets_of(m).insert(g, s@),
{
    assert(sets_of(m.insert(g, s)) =~= sets_of(m).insert(g, s@));
}

proof fn lemma_sets_of_remove(m: Map<u64, IdSet>, g: u64)
    ensures
        sets_of(m.remove(g)) == sets_of(m).remove(g),
{
    assert(sets_of(m.remove(g)) =~= sets_of(m).remove(g));
}

proof fn lemma_pair_sets_of_insert(m: Map<u64, PairSet>, g: u64, s: PairSet)
    ensures
        pair_sets_of(m.insert(g, s)) == pair_sets_of(m).insert(g, s@),
{
    assert(pair_sets_of(m.insert(g, s)) =~= pair_sets_of(m).insert(g, s@));
}

proof fn lemma_pair_sets_of_remove(m: Map<u64, PairSet>, g: u64)
    ensures
        pair_sets_of(m.remove(g)) == pair_sets_of(m).remove(g),
{
    assert(pair_sets_of(m.remove(g)) =~= pair_sets_of(m).remove(g));
}

proof fn lemma_users_of_insert(m: Map<u64, (User, IdSet)>, k: u64, v: (User, IdSet))
    ensures
        users_of(m.insert(k, v)) == users_of(m).insert(k, (v.0, v.1@)),
{
    assert(users_of(m.insert(k, v)) =~= users_of(m).insert(k, (v.0, v.1@)));
}

proof fn lemma_users_of_remove(m: Map<u64, (User, IdSet)>, k: u64)
    ensures
        users_of(m.remove(k)) == users_of(m).remove(k),
{
    assert(users_of(m.remove(k)) =~= users_of(m).remove(k));
}

proof fn lemma_messages_of_insert(m: Map<u64, Vec<CachedMessage>>, k: u64, v: Vec<CachedMessage>)
    ensures
        messages_of(m.insert(k, v)) == messages_of(m).insert(k, v@),
{
    assert(messages_of(m.insert(k, v)) =~= messages_of(m).insert(k, v@));
}

proof fn lemma_messages_of_remove(m: Map<u64, Vec<CachedMessage>>, k: u64)
    ensures
        messages_of(m.remove(k)) == messages_of(m).remove(k),
{
    assert(messages_of(m.remove(k)) =~= messages_of(m).remove(k));
}

impl InMemoryCache {
    /// Stores the current user, replacing any previous one.
    pub fn cache_current_user(&mut self, current_user: CurrentUser)
        requires
            old(self).wf(),
        ensures
            final(self).wf(),
            final(self).state() == (CacheState {
                current_user: Some(current_user),
                ..old(self).state()
            }),
            final(self).spec_config() == old(self).spec_config(),
    {
        self.current_user = Some(current_user);
        proof {
            assert(self.state() =~= (CacheState {
                current_user: Some(current_user),
                ..old(self).state()
            }));
        }
    }

    /// Stores a group, replacing only an unequal stored value.
    pub fn cache_group(&mut self, group: Group)
        requires
            old(self).wf(),
        ensures
            final(self).wf(),
            final(self).spec_config() == old(self).spec_config(),
            ({
                let st = old(self).state();
                if st.groups.contains_key(group.id) && st.groups[group.id].eq_val(&group) {
                    final(self).state() == st
                } else {
                    final(self).state() == (CacheState {
                        groups: st.groups.insert(group.id, group),
                        ..st
                    })
                }
            }),
    {
        let unchanged = match self.groups.get(group.id) {
            Some(stored) => stored.value_eq(&group),
            None => false,
        };
        if !unchanged {
            let id = group.id;
            self.groups.insert(id, group);
            proof {
                assert(self.state() =~= (CacheState {
                    groups: old(self).state().groups.insert(id, self.groups@[id]),
                    ..old(self).state()
                }));
            }
        }
    }

    /// Removes a group, returning the stored value.
    pub fn delete_group(&mut self, channel_id: u64) -> (r: Option<Group>)
        requires
            old(self).wf(),
        ensures
            final(self).wf(),
            final(self).spec_config() == old(self).spec_config(),
            final(self).state() == (CacheState {
                groups: old(self).state().groups.remove(channel_id),
                ..old(self).state()
            }),
            match r {
                Some(g) => old(self).state().groups.contains_key(channel_id) && g == old(
                    self,
                ).state().groups[channel_id],
                None => !old(self).state().groups.contains_key(channel_id),
            },
    {
        let r = self.groups.remove(channel_id);
        proof {
            assert(self.state() =~= (CacheState {
                groups: old(self).state().groups.remove(channel_id),
                ..old(self).state()
            }));
        }
        r
    }

    /// Stores a private channel, replacing only an unequal stored value.
    pub fn cache_private_channel(&mut self, private_channel: PrivateChannel)
        requires
            old(self).wf(),
        ensures
            final(self).wf(),
            final(self).spec_config() == old(self).spec_config(),
            ({
                let st = old(self).state();
                if st.channels_private.contains_key(private_channel.id)
                    && st.channels_private[private_channel.id].eq_val(&private_channel) {
                    final(self).state() == st
                } else {
                    final(self).state() == (CacheState {
                        channels_private: st.channels_private.insert(
                            private_channel.id,
                            private_channel,
                        ),
                        ..st
                    })
                }
            }),
    {
        let unchanged = match self.channels_private.get(private_channel.id) {
            Some(stored) => stored.value_eq(&private_channel),
            None => false,
        };
        if !unchanged {
            let id = private_channel.id;
            self.channels_private.insert(id, private_channel);
            proof {
                assert(self.state() =~= (CacheState {
                    channels_private: old(self).state().channels_private.insert(
                        id,
                        self.channels_private@[id],
                    ),
                    ..old(self).state()
                }));
            }
        }
    }

    /// Marks a guild unavailable and drops its summary record.
    pub fn unavailable_guild(&mut self, guild_id: u64)
        requires
            old(self).wf(),
        ensures
            final(self).wf(),
            final(self).spec_config() == old(self).spec_config(),
            final(self).state() == (CacheState {
                unavailable_guilds: old(self).state().unavailable_guilds.insert(guild_id),
                guilds: old(self).state().guilds.remove(guild_id),
                ..old(self).state()
            }),
    {
        self.unavailable_guilds.insert(guild_id);
        let _ = self.guilds.remove(guild_id);
        proof {
            assert(self.state() =~= (CacheState {
                unavailable_guilds: old(self).state().unavailable_guilds.insert(guild_id),
                guilds: old(self).state().guilds.remove(guild_id),
                ..old(self).state()
            }));
        }
    }

    /// Stores or refreshes a user record. An equal stored record is kept;
    /// an unequal one is replaced by the incoming record. Either way the
    /// guild joins the user's guild set, which otherwise keeps the guilds
    /// the user was already reachable through. Without a guild id an
    /// absent or unequal user is not stored at all.
    pub fn cache_user(&mut self, user: User, guild_id: Option<u64>)
        requires
            old(self).wf(),
        ensures
            final(self).wf(),
            final(self).spec_config() == old(self).spec_config(),
            final(self).state() == (CacheState {
                users: user_store_upsert(old(self).state().users, user, guild_id),
                ..old(self).state()
            }),
    {
        let uid = user.id;
        let keep = match self.users.get(uid) {
            Some(entry) => entry.0.value_eq(&user),
            None => false,
        };
        if keep {
            if let Some(g) = guild_id {
                let entry = self.users.remove(uid);
                proof {
                    lemma_users_of_remove(old(self).users@, uid);
                }
                match entry {
                    Some((stored, mut set)) => {
                        set.insert(g);
                        self.users.insert(uid, (stored, set));
                        proof {
                            lemma_set_insert_nonempty(old(self).state().users[uid].1, g);
                            lemma_users_of_insert(
                                old(self).users@.remove(uid),
                                uid,
                                (stored, set),
                            );
                            assert(users_of(self.users@) =~= user_store_upsert(
                                old(self).state().users,
                                user,
                                guild_id,
                            ));
                            assert(self.state() =~= (CacheState {
                                users: user_store_upsert(old(self).state().users, user, guild_id),
                                ..old(self).state()
                            }));
                        }
                    },
                    None => {
                        proof {
                            assert(false);
                        }
                    },
                }
            } else {
                proof {
                    assert(self.state() =~= (CacheState {
                        users: user_store_upsert(old(self).state().users, user, guild_id),
                        ..old(self).state()
                    }));
                }
            }
        } else {
            if let Some(g) = guild_id {
                let prior = self.users.remove(uid);
                proof {
                    lemma_users_of_remove(old(self).users@, uid);
                }
                let mut set = match prior {
                    Some((_, s)) => s,
                    None => IdSet::new(),
                };
                set.insert(g);
                self.users.insert(uid, (user, set));
                proof {
                    lemma_set_insert_nonempty(
                        (if old(self).state().users.contains_key(uid) {
                            old(self).state().users[uid].1
                        } else {
                            Set::empty()
                        }),
                        g,
                    );
                    lemma_users_of_insert(
                        old(self).users@.remove(uid),
                        uid,
                        self.users@[uid],
                    );
                    assert(users_of(self.users@) =~= user_store_upsert(
                        old(self).state().users,
                        user,
                        guild_id,
                    ));
                    assert(self.state() =~= (CacheState {
                        users: user_store_upsert(old(self).state().users, user, guild_id),
                        ..old(self).state()
                    }));
                }
            } else {
                proof {
                    assert(self.state() =~= (CacheState {
                        users: user_store_upsert(old(self).state().users, user, guild_id),
                        ..old(self).state()
                    }));
                }
            }
        }
    }

    /// Removes a member: the member record, its entry in the guild's member
    /// index, and the guild from the user's guild set; a user left with no
    /// guilds is evicted.
    pub fn member_remove(&mut self, guild_id: u64, user_id: u64)
        requires
            old(self).wf(),
        ensures
            final(self).wf(),
            final(self).spec_config() == old(self).spec_config(),
            final(self).state() == (CacheState {
                members: old(self).state().members.remove((guild_id, user_id)),
                guild_members: index_remove(old(self).state().guild_members, guild_id, user_id),
                users: user_store_remove_guild(old(self).state().users, user_id, guild_id),
                ..old(self).state()
            }),
    {
        let _ = self.members.remove(guild_id, user_id);
        match self.guild_members.remove(guild_id) {
            Some(mut set) => {
                set.remove(user_id);
                self.guild_members.insert(guild_id, set);
                proof {
                    lemma_sets_of_remove(old(self).guild_members@, guild_id);
                    lemma_sets_of_insert(old(self).guild_members@.remove(guild_id), guild_id, set);
                    assert(sets_of(self.guild_members@) =~= index_remove(
                        old(self).state().guild_members,
                        guild_id,
                        user_id,
                    ));
                }
            },
            None => {
                proof {
                    assert(sets_of(self.guild_members@) =~= index_remove(
                        old(self).state().guild_members,
                        guild_id,
                        user_id,
                    ));
                }
            },
        }
        let ghost users0 = self.users@;
        match self.users.remove(user_id) {
            Some((stored, mut gset)) => {
                gset.remove(guild_id);
                if !gset.is_empty() {
                    self.users.insert(user_id, (stored, gset));
                    proof {
                        lemma_users_of_remove(users0, user_id);
                        lemma_users_of_insert(users0.remove(user_id), user_id, (stored, gset));
                        assert(users_of(self.users@) =~= user_store_remove_guild(
                            users_of(users0),
                            user_id,
                            guild_id,
                        ));
                    }
                } else {
                    proof {
                        lemma_users_of_remove(users0, user_id);
                        assert(users_of(self.users@) =~= user_store_remove_guild(
                            users_of(users0),
                            user_id,
                            guild_id,
                        ));
                    }
                }
            },
            None => {
                proof {
                    assert(users_of(self.users@) =~= user_store_remove_guild(
                        users_of(users0),
                        user_id,
                        guild_id,
                    ));
                }
            },
        }
        proof {
            assert(self.state() =~= (CacheState {
                members: old(self).state().members.remove((guild_id, user_id)),
                guild_members: index_remove(old(self).state().guild_members, guild_id, user_id),
                users: user_store_remove_guild(old(self).state().users, user_id, guild_id),
                ..old(self).state()
            }));
        }
    }
}


/// The guild channel as stored: with the owning guild's id attached.
pub open spec fn attach_guild(c: GuildChannel, g: u64) -> GuildChannel {
    GuildChannel { guild_id: Some(g), ..c }
}

/// How storing one guild channel changes the channel store: an entry equal
/// in value to the incoming channel (with the guild attached) is kept,
/// anything else is replaced.
pub open spec fn upsert_channel(
    chans: Map<u64, GuildItem<GuildChannel>>,
    g: u64,
    c: GuildChannel,
) -> Map<u64, GuildItem<GuildChannel>> {
    let attached = attach_guild(c, g);
    if chans.contains_key(c.id) && chans[c.id].data.eq_val(&attached) {
        chans
    } else {
        chans.insert(c.id, GuildItem { data: attached, guild_id: g })
    }
}

/// How storing one guild channel changes the whole cache state.
pub open spec fn channel_apply(st: CacheState, g: u64, c: GuildChannel) -> CacheState {
    CacheState {
        channels_guild: upsert_channel(st.channels_guild, g, c),
        guild_channels: index_add(st.guild_channels, g, c.id),
        ..st
    }
}

/// How storing the first `n` channels of a list changes the cache state.
pub open spec fn channels_apply(st: CacheState, g: u64, list: Seq<GuildChannel>, n: int) -> CacheState
    decreases n,
{
    if n <= 0 {
        st
    } else {
        channel_apply(channels_apply(st, g, list, n - 1), g, list[n - 1])
    }
}

/// How storing one role changes the role store.
pub open spec fn upsert_role(
    roles: Map<u64, GuildItem<Role>>,
    g: u64,
    role: Role,
) -> Map<u64, GuildItem<Role>> {
    if roles.contains_key(role.id) && roles[role.id].data.eq_val(&role) {
        roles
    } else {
        roles.insert(role.id, GuildItem { data: role, guild_id: g })
    }
}

/// How storing one role changes the whole cache state.
pub open spec fn role_apply(st: CacheState, g: u64, role: Role) -> CacheState {
    CacheState {
        roles: upsert_role(st.roles, g, role),
        guild_roles: index_add(st.guild_roles, g, role.id),
        ..st
    }
}

/// How storing the first `n` roles of a list changes the cache state.
pub open spec fn roles_apply(st: CacheState, g: u64, list: Seq<Role>, n: int) -> CacheState
    decreases n,
{
    if n <= 0 {
        st
    } else {
        role_apply(roles_apply(st, g, list, n - 1), g, list[n - 1])
    }
}

/// How one presence event changes the per-guild online sets: an online user
/// enters the guild's set, any other status removes it; a guild without a
/// set is left alone.
pub open spec fn presence_apply(
    m: Map<u64, Set<u64>>,
    g: u64,
    user_id: u64,
    status: Status,
) -> Map<u64, Set<u64>> {
    if m.contains_key(g) {
        if status == Status::Online {
            m.insert(g, m[g].insert(user_id))
        } else {
            m.insert(g, m[g].remove(user_id))
        }
    } else {
        m
    }
}

/// How the first `n` presences of a list change the per-guild online sets.
pub open spec fn presences_apply(
    m: Map<u64, Set<u64>>,
    g: u64,
    list: Seq<Presence>,
    n: int,
) -> Map<u64, Set<u64>>
    decreases n,
{
    if n <= 0 {
        m
    } else {
        let prev = presences_apply(m, g, list, n - 1);
        presence_apply(prev, g, spec_presence_user_id(&list[n - 1].user), list[n - 1].status)
    }
}

/// How one voice-state event changes the whole cache state: the primary
/// mapping is updated and both reverse indices follow it exactly.
pub open spec fn voice_apply(st: CacheState, vs: VoiceState) -> CacheState {
    match vs.guild_id {
        Option::Some(g) => {
            let vnew = voice_update(st.voice_states, g, vs.user_id, vs.channel_id);
            CacheState {
                voice_states: vnew,
                voice_state_channels: channels_index_of(vnew),
                voice_state_guilds: guilds_index_of(vnew),
                ..st
            }
        },
        Option::None => st,
    }
}

/// How the first `n` voice states of a list change the cache state.
pub open spec fn voice_states_apply(st: CacheState, list: Seq<VoiceState>, n: int) -> CacheState
    decreases n,
{
    if n <= 0 {
        st
    } else {
        voice_apply(voice_states_apply(st, list, n - 1), list[n - 1])
    }
}

/// The id that a presence event speaks of.
pub fn presence_user_id(presence: &Presence) -> (r: u64)
    ensures
        r == spec_presence_user_id(&presence.user),
{
    match &presence.user {
        UserOrId::User(u) => u.id,
        UserOrId::UserId { id } => *id,
    }
}

impl InMemoryCache {
    /// Records one user's presence status in a guild: online users enter
    /// the guild's online set, any other status removes them. A guild whose
    /// set was never created is left alone. Returns whether the user is
    /// online.
    pub fn cache_presence(&mut self, guild_id: u64, user_id: u64, status: Status) -> (r: bool)
        requires
            old(self).wf(),
        ensures
            final(self).wf(),
            final(self).spec_config() == old(self).spec_config(),
            r == (status == Status::Online),
            final(self).state() == (CacheState {
                guild_presences: presence_apply(
                    old(self).state().guild_presences,
                    guild_id,
                    user_id,
                    status,
                ),
                ..old(self).state()
            }),
    {
        let online = match status {
            Status::Online => true,
            _ => false,
        };
        match self.guild_presences.remove(guild_id) {
            Some(mut set) => {
                if online {
                    set.insert(user_id);
                } else {
                    set.remove(user_id);
                }
                self.guild_presences.insert(guild_id, set);
                proof {
                    lemma_sets_of_remove(old(self).guild_presences@, guild_id);
                    lemma_sets_of_insert(
                        old(self).guild_presences@.remove(guild_id),
                        guild_id,
                        set,
                    );
                    assert(sets_of(self.guild_presences@) =~= presence_apply(
                        old(self).state().guild_presences,
                        guild_id,
                        user_id,
                        status,
                    ));
                    assert(self.state() =~= (CacheState {
                        guild_presences: presence_apply(
                            old(self).state().guild_presences,
                            guild_id,
                            user_id,
                            status,
                        ),
                        ..old(self).state()
                    }));
                }
            },
            None => {
                proof {
                    assert(self.state() =~= (CacheState {
                        guild_presences: presence_apply(
                            old(self).state().guild_presences,
                            guild_id,
                            user_id,
                            status,
                        ),
                        ..old(self).state()
                    }));
                }
            },
        }
        online
    }

    /// Records every presence of a list against one guild, in order.
    pub fn cache_presences(&mut self, guild_id: u64, presences: &Vec<Presence>)
        requires
            old(self).wf(),
        ensures
            final(self).wf(),
            final(self).spec_config() == old(self).spec_config(),
            final(self).state() == (CacheState {
                guild_presences: presences_apply(
                    old(self).state().guild_presences,
                    guild_id,
                    presences@,
                    presences@.len() as int,
                ),
                ..old(self).state()
            }),
    {
        let mut i: usize = 0;
        while i < presences.len()
            invariant
                self.wf(),
                self.spec_config() == old(self).spec_config(),
                i <= presences@.len(),
                self.state() == (CacheState {
                    guild_presences: presences_apply(
                        old(self).state().guild_presences,
                        guild_id,
                        presences@,
                        i as int,
                    ),
                    ..old(self).state()
                }),
            decreases presences@.len() - i,
        {
            let user_id = presence_user_id(&presences[i]);
            let status = presences[i].status;
            self.cache_presence(guild_id, user_id, status);
            i = i + 1;
        }
    }

    /// Stores a role under its guild: the role enters the guild's role
    /// index, and an unequal or absent stored role is replaced.
    pub fn cache_role(&mut self, guild_id: u64, role: Role)
        requires
            old(self).wf(),
        ensures
            final(self).wf(),
            final(self).spec_config() == old(self).spec_config(),
            final(self).state() == role_apply(old(self).state(), guild_id, role),
    {
        let id = role.id;
        let mut set = match self.guild_roles.remove(guild_id) {
            Some(s) => s,
            None => IdSet::new(),
        };
        set.insert(id);
        self.guild_roles.insert(guild_id, set);
        proof {
            lemma_sets_of_remove(old(self).guild_roles@, guild_id);
            lemma_sets_of_insert(old(self).guild_roles@.remove(guild_id), guild_id, set);
            assert(sets_of(self.guild_roles@) =~= index_add(
                old(self).state().guild_roles,
                guild_id,
                id,
            ));
        }
        let replace = match self.roles.get(id) {
            Some(item) => !item.data.value_eq(&role),
            None => true,
        };
        if replace {
            self.roles.insert(id, GuildItem { data: role, guild_id });
        }
        proof {
            assert(self.state() =~= role_apply(old(self).state(), guild_id, role));
        }
    }

    /// Stores every role of a list under one guild, in order.
    pub fn cache_roles(&mut self, guild_id: u64, roles: &Vec<Role>)
        requires
            old(self).wf(),
        ensures
            final(self).wf(),
            final(self).spec_config() == old(self).spec_config(),
            final(self).state() == roles_apply(
                old(self).state(),
                guild_id,
                roles@,
                roles@.len() as int,
            ),
    {
        let mut i: usize = 0;
        while i < roles.len()
            invariant
                self.wf(),
                self.spec_config() == old(self).spec_config(),
                i <= roles@.len(),
                self.state() == roles_apply(old(self).state(), guild_id, roles@, i as int),
            decreases roles@.len() - i,
        {
            let role = roles[i].copy_value();
            self.cache_role(guild_id, role);
            i = i + 1;
        }
    }

    /// Stores a guild channel: the owning guild's id is attached to the
    /// channel, the channel enters the guild's channel index, and an
    /// unequal or absent stored channel is replaced.
    pub fn cache_guild_channel(&mut self, guild_id: u64, channel: GuildChannel)
        requires
            old(self).wf(),
        ensures
            final(self).wf(),
            final(self).spec_config() == old(self).spec_config(),
            final(self).state() == channel_apply(old(self).state(), guild_id, channel),
    {
        let ghost incoming = channel;
        let mut channel = channel;
        channel.guild_id = Some(guild_id);
        proof {
            assert(channel == attach_guild(incoming, guild_id));
        }
        let id = channel.id;
        let mut set = match self.guild_channels.remove(guild_id) {
            Some(s) => s,
            None => IdSet::new(),
        };
        set.insert(id);
        self.guild_channels.insert(guild_id, set);
        proof {
            lemma_sets_of_remove(old(self).guild_channels@, guild_id);
            lemma_sets_of_insert(old(self).guild_channels@.remove(guild_id), guild_id, set);
            assert(sets_of(self.guild_channels@) =~= index_add(
                old(self).state().guild_channels,
                guild_id,
                id,
            ));
        }
        let replace = match self.channels_guild.get(id) {
            Some(item) => !item.data.value_eq(&channel),
            None => true,
        };
        if replace {
            self.channels_guild.insert(id, GuildItem { data: channel, guild_id });
        }
        proof {
            assert(self.state() =~= channel_apply(old(self).state(), guild_id, incoming));
        }
    }

    /// Stores every channel of a list under one guild, in order; every one
    /// of them ends up carrying the guild's id.
    pub fn cache_guild_channels(&mut self, guild_id: u64, channels: &Vec<GuildChannel>)
        requires
            old(self).wf(),
        ensures
            final(self).wf(),
            final(self).spec_config() == old(self).spec_config(),
            final(self).state() == channels_apply(
                old(self).state(),
                guild_id,
                channels@,
                channels@.len() as int,
            ),
    {
        let mut i: usize = 0;
        while i < channels.len()
            invariant
                self.wf(),
                self.spec_config() == old(self).spec_config(),
                i <= channels@.len(),
                self.state() == channels_apply(
                    old(self).state(),
                    guild_id,
                    channels@,
                    i as int,
                ),
            decreases channels@.len() - i,
        {
            let channel = channels[i].copy_value();
            self.cache_guild_channel(guild_id, channel);
            i = i + 1;
        }
    }

    /// Removes a guild channel, returning it; its id also leaves its
    /// guild's channel index.
    pub fn delete_guild_channel(&mut self, channel_id: u64) -> (r: Option<GuildChannel>)
        requires
            old(self).wf(),
        ensures
            final(self).wf(),
            final(self).spec_config() == old(self).spec_config(),
            ({
                let st = old(self).state();
                if st.channels_guild.contains_key(channel_id) {
                    final(self).state() == (CacheState {
                        channels_guild: st.channels_guild.remove(channel_id),
                        guild_channels: index_remove(
                            st.guild_channels,
                            st.channels_guild[channel_id].guild_id,
                            channel_id,
                        ),
                        ..st
                    }) && r == Some(st.channels_guild[channel_id].data)
                } else {
                    final(self).state() == st && r is None
                }
            }),
    {
        let item = match self.channels_guild.remove(channel_id) {
            Some(item) => item,
            None => {
                return None;
            },
        };
        let guild_id = item.guild_id;
        match self.guild_channels.remove(guild_id) {
            Some(mut set) => {
                set.remove(channel_id);
                self.guild_channels.insert(guild_id, set);
                proof {
                    lemma_sets_of_remove(old(self).guild_channels@, guild_id);
                    lemma_sets_of_insert(
                        old(self).guild_channels@.remove(guild_id),
                        guild_id,
                        set,
                    );
                    assert(sets_of(self.guild_channels@) =~= index_remove(
                        old(self).state().guild_channels,
                        guild_id,
                        channel_id,
                    ));
                }
            },
            None => {
                proof {
                    assert(sets_of(self.guild_channels@) =~= index_remove(
                        old(self).state().guild_channels,
                        guild_id,
                        channel_id,
                    ));
                }
            },
        }
        proof {
            assert(self.state() =~= (CacheState {
                channels_guild: old(self).state().channels_guild.remove(channel_id),
                guild_channels: index_remove(
                    old(self).state().guild_channels,
                    guild_id,
                    channel_id,
                ),
                ..old(self).state()
            }));
        }
        Some(item.data)
    }

    /// Removes a role, returning it; its id also leaves its guild's role
    /// index.
    pub fn delete_role(&mut self, role_id: u64) -> (r: Option<Role>)
        requires
            old(self).wf(),
        ensures
            final(self).wf(),
            final(self).spec_config() == old(self).spec_config(),
            ({
                let st = old(self).state();
                if st.roles.contains_key(role_id) {
                    final(self).state() == (CacheState {
                        roles: st.roles.remove(role_id),
                        guild_roles: index_remove(
                            st.guild_roles,
                            st.roles[role_id].guild_id,
                            role_id,
                        ),
                        ..st
                    }) && r == Some(st.roles[role_id].data)
                } else {
                    final(self).state() == st && r is None
                }
            }),
    {
        let item = match self.roles.remove(role_id) {
            Some(item) => item,
            None => {
                return None;
            },
        };
        let guild_id = item.guild_id;
        match self.guild_roles.remove(guild_id) {
            Some(mut set) => {
                set.remove(role_id);
                self.guild_roles.insert(guild_id, set);
                proof {
                    lemma_sets_of_remove(old(self).guild_roles@, guild_id);
                    lemma_sets_of_insert(old(self).guild_roles@.remove(guild_id), guild_id, set);
                    assert(sets_of(self.guild_roles@) =~= index_remove(
                        old(self).state().guild_roles,
                        guild_id,
                        role_id,
                    ));
                }
            },
            None => {
                proof {
                    assert(sets_of(self.guild_roles@) =~= index_remove(
                        old(self).state().guild_roles,
                        guild_id,
                        role_id,
                    ));
                }
            },
        }
        proof {
            assert(self.state() =~= (CacheState {
                roles: old(self).state().roles.remove(role_id),
                guild_roles: index_remove(old(self).state().guild_roles, guild_id, role_id),
                ..old(self).state()
            }));
        }
        Some(item.data)
    }
}


impl InMemoryCache {
    /// Applies one voice-state event. An event without a guild id cannot be
    /// indexed and is dropped. Otherwise a carried channel id stores the
    /// (guild, user) occupancy and an absent one removes it; both reverse
    /// indices follow exactly, creating an entry with its first occupant
    /// and dropping it with its last.
    pub fn cache_voice_state(&mut self, vs: &VoiceState)
        requires
            old(self).wf(),
        ensures
            final(self).wf(),
            final(self).spec_config() == old(self).spec_config(),
            final(self).state() == voice_apply(old(self).state(), *vs),
    {
        let guild_id = match vs.guild_id {
            Some(id) => id,
            None => {
                return ;
            },
        };
        let user_id = vs.user_id;
        let ghost st0 = old(self).state();
        let prev_opt = match self.voice_states.get(guild_id, user_id) {
            Some(p) => Some(*p),
            None => None,
        };
        match vs.channel_id {
            Some(channel_id) => {
                let ghost vnew = st0.voice_states.insert((guild_id, user_id), channel_id);
                self.voice_states.insert(guild_id, user_id, channel_id);
                // If the user moves out of another channel, its occupancy
                // there ends; the entry goes when the last occupant leaves.
                if let Some(prev) = prev_opt {
                    if prev != channel_id {
                        match self.voice_state_channels.remove(prev) {
                            Some(mut occ) => {
                                proof {
                                    assert(occ@ == st0.voice_state_channels[prev]);
                                }
                                occ.remove(guild_id, user_id);
                                if !occ.is_empty() {
                                    self.voice_state_channels.insert(prev, occ);
                                    proof {
                                        lemma_pair_sets_of_remove(
                                            old(self).voice_state_channels@,
                                            prev,
                                        );
                                        lemma_pair_sets_of_insert(
                                            old(self).voice_state_channels@.remove(prev),
                                            prev,
                                            occ,
                                        );
                                        assert(st0.voice_state_channels[prev].remove(
                                            (guild_id, user_id),
                                        ) != Set::<(u64, u64)>::empty());
                                        assert(pair_sets_of(self.voice_state_channels@)
                                            =~= st0.voice_state_channels.insert(
                                            prev,
                                            st0.voice_state_channels[prev].remove(
                                                (guild_id, user_id),
                                            ),
                                        ));
                                    }
                                } else {
                                    proof {
                                        lemma_pair_sets_of_remove(
                                            old(self).voice_state_channels@,
                                            prev,
                                        );
                                        assert(st0.voice_state_channels[prev].remove(
                                            (guild_id, user_id),
                                        ) == Set::<(u64, u64)>::empty());
                                        assert(pair_sets_of(self.voice_state_channels@)
                                            =~= st0.voice_state_channels.remove(prev));
                                    }
                                }
                            },
                            None => {
                                proof {
                                    assert(st0.voice_state_channels.contains_key(prev));
                                    assert(false);
                                }
                            },
                        }
                    }
                }
                let ghost channels_mid = pair_sets_of(self.voice_state_channels@);
                let ghost mid_spec = (match prev_opt {
                    Option::Some(p) => if p != channel_id {
                        let shrunk = st0.voice_state_channels[p].remove((guild_id, user_id));
                        if shrunk == Set::<(u64, u64)>::empty() {
                            st0.voice_state_channels.remove(p)
                        } else {
                            st0.voice_state_channels.insert(p, shrunk)
                        }
                    } else {
                        st0.voice_state_channels
                    },
                    Option::None => st0.voice_state_channels,
                });
                proof {
                    assert(channels_mid == mid_spec);
                }
                let occ_found = self.voice_state_channels.remove(channel_id);
                let mut occ = match occ_found {
                    Some(s) => s,
                    None => PairSet::new(),
                };
                proof {
                    assert(occ@ == (if channels_mid.contains_key(channel_id) {
                        channels_mid[channel_id]
                    } else {
                        Set::<(u64, u64)>::empty()
                    }));
                    lemma_pair_sets_of_remove(self.voice_state_channels@.insert(channel_id, occ), channel_id);
                }
                let ghost channels_removed = self.voice_state_channels@;
                occ.insert(guild_id, user_id);
                self.voice_state_channels.insert(channel_id, occ);
                let gs_found = self.voice_state_guilds.remove(guild_id);
                let mut gs = match gs_found {
                    Some(s) => s,
                    None => IdSet::new(),
                };
                proof {
                    assert(gs@ == (if st0.voice_state_guilds.contains_key(guild_id) {
                        st0.voice_state_guilds[guild_id]
                    } else {
                        Set::<u64>::empty()
                    }));
                }
                gs.insert(user_id);
                self.voice_state_guilds.insert(guild_id, gs);
                proof {
                    lemma_pair_sets_of_insert(channels_removed, channel_id, occ);
                    assert(pair_sets_of(self.voice_state_channels@) =~= channels_mid.insert(
                        channel_id,
                        occ@,
                    ));
                    lemma_sets_of_remove(old(self).voice_state_guilds@, guild_id);
                    lemma_sets_of_insert(old(self).voice_state_guilds@.remove(guild_id), guild_id, gs);
                    assert(sets_of(self.voice_state_guilds@) =~= sets_of(
                        old(self).voice_state_guilds@,
                    ).insert(guild_id, gs@));
                    assert(pair_sets_of(self.voice_state_channels@) =~~= channels_index_of(vnew))
                        by {
                        lemma_voice_insert_channel_index(
                            st0,
                            guild_id,
                            user_id,
                            channel_id,
                            prev_opt,
                            pair_sets_of(self.voice_state_channels@),
                        );
                    }
                    assert(sets_of(self.voice_state_guilds@) =~~= guilds_index_of(vnew)) by {
                        lemma_voice_insert_guild_index(
                            st0,
                            guild_id,
                            user_id,
                            channel_id,
                            sets_of(self.voice_state_guilds@),
                        );
                    }
                    assert(self.state() =~= voice_apply(st0, *vs));
                }
            },
            None => {
                match prev_opt {
                    Some(prev) => {
                        let ghost vnew = st0.voice_states.remove((guild_id, user_id));
                        let _ = self.voice_states.remove(guild_id, user_id);
                        match self.voice_state_channels.remove(prev) {
                            Some(mut occ) => {
                                proof {
                                    assert(occ@ == st0.voice_state_channels[prev]);
                                }
                                occ.remove(guild_id, user_id);
                                if !occ.is_empty() {
                                    self.voice_state_channels.insert(prev, occ);
                                    proof {
                                        lemma_pair_sets_of_remove(
                                            old(self).voice_state_channels@,
                                            prev,
                                        );
                                        lemma_pair_sets_of_insert(
                                            old(self).voice_state_channels@.remove(prev),
                                            prev,
                                            occ,
                                        );
                                        assert(st0.voice_state_channels[prev].remove(
                                            (guild_id, user_id),
                                        ) != Set::<(u64, u64)>::empty());
                                        assert(pair_sets_of(self.voice_state_channels@)
                                            =~= st0.voice_state_channels.insert(
                                            prev,
                                            st0.voice_state_channels[prev].remove(
                                                (guild_id, user_id),
                                            ),
                                        ));
                                    }
                                } else {
                                    proof {
                                        lemma_pair_sets_of_remove(
                                            old(self).voice_state_channels@,
                                            prev,
                                        );
                                        assert(st0.voice_state_channels[prev].remove(
                                            (guild_id, user_id),
                                        ) == Set::<(u64, u64)>::empty());
                                        assert(pair_sets_of(self.voice_state_channels@)
                                            =~= st0.voice_state_channels.remove(prev));
                                    }
                                }
                            },
                            None => {
                                proof {
                                    assert(st0.voice_state_channels.contains_key(prev));
                                    assert(false);
                                }
                            },
                        }
                        match self.voice_state_guilds.remove(guild_id) {
                            Some(mut gs) => {
                                proof {
                                    assert(gs@ == st0.voice_state_guilds[guild_id]);
                                }
                                gs.remove(user_id);
                                if !gs.is_empty() {
                                    self.voice_state_guilds.insert(guild_id, gs);
                                    proof {
                                        lemma_sets_of_remove(
                                            old(self).voice_state_guilds@,
                                            guild_id,
                                        );
                                        lemma_sets_of_insert(
                                            old(self).voice_state_guilds@.remove(guild_id),
                                            guild_id,
                                            gs,
                                        );
                                        assert(st0.voice_state_guilds[guild_id].remove(user_id)
                                            != Set::<u64>::empty());
                                        assert(sets_of(self.voice_state_guilds@)
                                            =~= st0.voice_state_guilds.insert(
                                            guild_id,
                                            st0.voice_state_guilds[guild_id].remove(user_id),
                                        ));
                                    }
                                } else {
                                    proof {
                                        lemma_sets_of_remove(
                                            old(self).voice_state_guilds@,
                                            guild_id,
                                        );
                                        assert(st0.voice_state_guilds[guild_id].remove(user_id)
                                            == Set::<u64>::empty());
                                        assert(sets_of(self.voice_state_guilds@)
                                            =~= st0.voice_state_guilds.remove(guild_id));
                                    }
                                }
                            },
                            None => {
                                proof {
                                    assert(st0.voice_state_guilds.contains_key(guild_id));
                                    assert(false);
                                }
                            },
                        }
                        proof {
                            assert(pair_sets_of(self.voice_state_channels@)
                                =~~= channels_index_of(vnew)) by {
                                lemma_voice_remove_channel_index(
                                    st0,
                                    guild_id,
                                    user_id,
                                    prev,
                                    pair_sets_of(self.voice_state_channels@),
                                );
                            }
                            assert(sets_of(self.voice_state_guilds@) =~~= guilds_index_of(vnew))
                                by {
                                lemma_voice_remove_guild_index(
                                    st0,
                                    guild_id,
                                    user_id,
                                    sets_of(self.voice_state_guilds@),
                                );
                            }
                            assert(self.state() =~= voice_apply(st0, *vs));
                        }
                    },
                    None => {
                        proof {
                            assert(st0.voice_states.remove((guild_id, user_id))
                                =~= st0.voice_states);
                            assert(channels_index_of(st0.voice_states.remove((guild_id, user_id)))
                                == st0.voice_state_channels);
                            assert(guilds_index_of(st0.voice_states.remove((guild_id, user_id)))
                                == st0.voice_state_guilds);
                            assert(self.state() =~= voice_apply(st0, *vs));
                        }
                    },
                }
            },
        }
    }

    /// Applies every voice state of a list, in order.
    pub fn cache_voice_states(&mut self, voice_states: &Vec<VoiceState>)
        requires
            old(self).wf(),
        ensures
            final(self).wf(),
            final(self).spec_config() == old(self).spec_config(),
            final(self).state() == voice_states_apply(
                old(self).state(),
                voice_states@,
                voice_states@.len() as int,
            ),
    {
        let mut i: usize = 0;
        while i < voice_states.len()
            invariant
                self.wf(),
                self.spec_config() == old(self).spec_config(),
                i <= voice_states@.len(),
                self.state() == voice_states_apply(old(self).state(), voice_states@, i as int),
            decreases voice_states@.len() - i,
        {
            self.cache_voice_state(&voice_states[i]);
            i = i + 1;
        }
    }
}

/// After storing (guild, user) in channel `c`, the channel occupancy index
/// that the executable update built is exactly the derived index of the new
/// primary mapping.
proof fn lemma_voice_insert_channel_index(
    st: CacheState,
    g: u64,
    u: u64,
    c: u64,
    prev_opt: Option<u64>,
    built: Map<u64, Set<(u64, u64)>>,
)
    requires
        voice_indices_consistent(st),
        match prev_opt {
            Option::Some(p) => st.voice_states.contains_key((g, u)) && st.voice_states[
                (g, u)
            ] == p,
            Option::None => !st.voice_states.contains_key((g, u)),
        },
        ({
            let mid = match prev_opt {
                Option::Some(p) => if p != c {
                    let shrunk = st.voice_state_channels[p].remove((g, u));
                    if shrunk == Set::<(u64, u64)>::empty() {
                        st.voice_state_channels.remove(p)
                    } else {
                        st.voice_state_channels.insert(p, shrunk)
                    }
                } else {
                    st.voice_state_channels
                },
                Option::None => st.voice_state_channels,
            };
            built == mid.insert(
                c,
                (if mid.contains_key(c) {
                    mid[c]
                } else {
                    Set::empty()
                }).insert((g, u)),
            )
        }),
    ensures
        built =~~= channels_index_of(st.voice_states.insert((g, u), c)),
{
    let vnew = st.voice_states.insert((g, u), c);
    let derived = channels_index_of(vnew);
    assert forall|d: u64| #[trigger] built.contains_key(d) implies derived.contains_key(d)
        && built[d] =~= derived[d] by {
        if d == c {
            assert(vnew.contains_key((g, u)) && vnew[(g, u)] == c);
            assert(derived.contains_key(c));
            assert forall|p: (u64, u64)| #[trigger] built[c].contains(p) implies derived[c].contains(p) by {
                if p != (g, u) {
                    assert(st.voice_state_channels.contains_key(c));
                    assert(st.voice_state_channels[c].contains(p));
                    assert(st.voice_states.contains_key(p) && st.voice_states[p] == c);
                    assert(vnew.contains_key(p) && vnew[p] == c);
                }
            }
            assert forall|p: (u64, u64)| #[trigger] derived[c].contains(p) implies built[c].contains(p) by {
                if p != (g, u) {
                    assert(st.voice_states.contains_key(p) && st.voice_states[p] == c);
                    assert(st.voice_state_channels.contains_key(c));
                    assert(st.voice_state_channels[c].contains(p));
                }
            }
        } else {
            assert forall|p: (u64, u64)| #[trigger] built[d].contains(p) implies derived[d].contains(p) by {
                assert(st.voice_state_channels.contains_key(d));
                assert(st.voice_state_channels[d].contains(p));
                assert(p != (g, u));
                assert(vnew.contains_key(p) && vnew[p] == d);
            }
            assert(exists|p: (u64, u64)| #[trigger] built[d].contains(p)) by {
                match prev_opt {
                    Option::Some(pr) => {
                        if pr != c && d == pr {
                            assert(built[d] == st.voice_state_channels[pr].remove((g, u)));
                            assert(built[d] != Set::<(u64, u64)>::empty());
                            if forall|p: (u64, u64)| !(#[trigger] built[d].contains(p)) {
                                assert(built[d] =~= Set::<(u64, u64)>::empty());
                            }
                        } else {
                            assert(built[d] == st.voice_state_channels[d]);
                            assert(channels_index_of(st.voice_states).contains_key(d));
                            let q = choose|p: (u64, u64)| #[trigger]
                                st.voice_states.contains_key(p) && st.voice_states[p] == d;
                            assert(built[d].contains(q));
                        }
                    },
                    Option::None => {
                        assert(built[d] == st.voice_state_channels[d]);
                        assert(channels_index_of(st.voice_states).contains_key(d));
                        let q = choose|p: (u64, u64)| #[trigger]
                            st.voice_states.contains_key(p) && st.voice_states[p] == d;
                        assert(built[d].contains(q));
                    },
                }
            }
            let pw = choose|p: (u64, u64)| #[trigger] built[d].contains(p);
            assert(vnew.contains_key(pw) && vnew[pw] == d);
            assert(derived.contains_key(d));
            assert forall|p: (u64, u64)| #[trigger] derived[d].contains(p) implies built[d].contains(p) by {
                assert(vnew.contains_key(p) && vnew[p] == d);
                assert(p != (g, u));
                assert(st.voice_states.contains_key(p) && st.voice_states[p] == d);
                assert(st.voice_state_channels.contains_key(d));
                assert(st.voice_state_channels[d].contains(p));
            }
        }
    }
    assert forall|d: u64| #[trigger] derived.contains_key(d) implies built.contains_key(d) by {
        let p = choose|p: (u64, u64)| #[trigger] vnew.contains_key(p) && vnew[p] == d;
        if d == c {
        } else {
            assert(p != (g, u));
            assert(st.voice_states.contains_key(p) && st.voice_states[p] == d);
            assert(st.voice_state_channels.contains_key(d));
            assert(st.voice_state_channels[d].contains(p));
            match prev_opt {
                Option::Some(pr) => {
                    if pr != c && d == pr {
                        assert(st.voice_state_channels[pr].remove((g, u)).contains(p));
                    }
                },
                Option::None => {},
            }
        }
    }
}

/// After storing (guild, user), the per-guild occupancy index that the
/// executable update built is exactly the derived index of the new primary
/// mapping.
proof fn lemma_voice_insert_guild_index(
    st: CacheState,
    g: u64,
    u: u64,
    c: u64,
    built: Map<u64, Set<u64>>,
)
    requires
        voice_indices_consistent(st),
        built == st.voice_state_guilds.insert(
            g,
            (if st.voice_state_guilds.contains_key(g) {
                st.voice_state_guilds[g]
            } else {
                Set::empty()
            }).insert(u),
        ),
    ensures
        built =~~= guilds_index_of(st.voice_states.insert((g, u), c)),
{
    let vnew = st.voice_states.insert((g, u), c);
    let derived = guilds_index_of(vnew);
    assert forall|d: u64| #[trigger] built.contains_key(d) implies derived.contains_key(d)
        && built[d] =~= derived[d] by {
        if d == g {
            assert(vnew.contains_key((g, u)));
            assert forall|x: u64| #[trigger] built[g].contains(x) implies derived[g].contains(
                x,
            ) by {
                if x != u {
                    assert(st.voice_state_guilds.contains_key(g));
                    assert(st.voice_state_guilds[g].contains(x));
                    assert(st.voice_states.contains_key((g, x)));
                    assert(vnew.contains_key((g, x)));
                }
            }
            assert forall|x: u64| #[trigger] derived[g].contains(x) implies built[g].contains(
                x,
            ) by {
                if x != u {
                    assert(vnew.contains_key((g, x)));
                    assert((g, x) != (g, u));
                    assert(st.voice_states.contains_key((g, x)));
                    assert(st.voice_state_guilds.contains_key(g));
                    assert(st.voice_state_guilds[g].contains(x));
                }
            }
        } else {
            assert(st.voice_state_guilds.contains_key(d));
            assert(guilds_index_of(st.voice_states).contains_key(d));
            let xw = choose|x: u64| #[trigger] st.voice_states.contains_key((d, x));
            assert(st.voice_states.contains_key((d, xw)));
            assert(vnew.contains_key((d, xw)));
            assert(derived.contains_key(d));
            assert forall|x: u64| #[trigger] built[d].contains(x) implies derived[d].contains(
                x,
            ) by {
                assert(st.voice_states.contains_key((d, x)));
                assert((d, x) != (g, u));
                assert(vnew.contains_key((d, x)));
            }
            assert forall|x: u64| #[trigger] derived[d].contains(x) implies built[d].contains(
                x,
            ) by {
                assert(vnew.contains_key((d, x)));
                assert((d, x) != (g, u));
                assert(st.voice_states.contains_key((d, x)));
                assert(st.voice_state_guilds.contains_key(d));
                assert(st.voice_state_guilds[d].contains(x));
            }
        }
    }
    assert forall|d: u64| #[trigger] derived.contains_key(d) implies built.contains_key(d) by {
        let x = choose|x: u64| #[trigger] vnew.contains_key((d, x));
        if d == g {
        } else {
            assert((d, x) != (g, u));
            assert(st.voice_states.contains_key((d, x)));
            assert(st.voice_state_guilds.contains_key(d));
        }
    }
}

/// After removing (guild, user), the channel occupancy index that the
/// executable update built is exactly the derived index of the new primary
/// mapping.
proof fn lemma_voice_remove_channel_index(
    st: CacheState,
    g: u64,
    u: u64,
    prev: u64,
    built: Map<u64, Set<(u64, u64)>>,
)
    requires
        voice_indices_consistent(st),
        st.voice_states.contains_key((g, u)),
        st.voice_states[(g, u)] == prev,
        ({
            let shrunk = st.voice_state_channels[prev].remove((g, u));
            if shrunk == Set::<(u64, u64)>::empty() {
                built == st.voice_state_channels.remove(prev)
            } else {
                built == st.voice_state_channels.insert(prev, shrunk)
            }
        }),
    ensures
        built =~~= channels_index_of(st.voice_states.remove((g, u))),
{
    let vnew = st.voice_states.remove((g, u));
    let derived = channels_index_of(vnew);
    assert forall|d: u64| #[trigger] built.contains_key(d) implies derived.contains_key(d)
        && built[d] =~= derived[d] by {
        assert(st.voice_state_channels.contains_key(d));
        assert forall|p: (u64, u64)| #[trigger] built[d].contains(p) implies derived[d].contains(
            p,
        ) by {
            assert(st.voice_state_channels[d].contains(p));
            assert(p != (g, u));
            assert(st.voice_states.contains_key(p) && st.voice_states[p] == d);
            assert(vnew.contains_key(p) && vnew[p] == d);
        }
        assert(exists|p: (u64, u64)| #[trigger] built[d].contains(p)) by {
            if d == prev {
                assert(built[d] == st.voice_state_channels[prev].remove((g, u)));
                assert(built[d] != Set::<(u64, u64)>::empty());
                if forall|p: (u64, u64)| !(#[trigger] built[d].contains(p)) {
                    assert(built[d] =~= Set::<(u64, u64)>::empty());
                }
            } else {
                assert(built[d] == st.voice_state_channels[d]);
                assert(channels_index_of(st.voice_states).contains_key(d));
                let q = choose|p: (u64, u64)| #[trigger] st.voice_states.contains_key(p)
                    && st.voice_states[p] == d;
                assert(built[d].contains(q));
            }
        }
        let pw = choose|p: (u64, u64)| #[trigger] built[d].contains(p);
        assert(derived.contains_key(d));
        assert forall|p: (u64, u64)| #[trigger] derived[d].contains(p) implies built[d].contains(
            p,
        ) by {
            assert(vnew.contains_key(p) && vnew[p] == d);
            assert(p != (g, u));
            assert(st.voice_states.contains_key(p) && st.voice_states[p] == d);
            assert(st.voice_state_channels[d].contains(p));
        }
    }
    assert forall|d: u64| #[trigger] derived.contains_key(d) implies built.contains_key(d) by {
        let p = choose|p: (u64, u64)| #[trigger] vnew.contains_key(p) && vnew[p] == d;
        assert(p != (g, u));
        assert(st.voice_states.contains_key(p) && st.voice_states[p] == d);
        assert(st.voice_state_channels.contains_key(d));
        assert(st.voice_state_channels[d].contains(p));
        if d == prev {
            assert(st.voice_state_channels[prev].remove((g, u)).contains(p));
        }
    }
}

/// After removing (guild, user), the per-guild occupancy index that the
/// executable update built is exactly the derived index of the new primary
/// mapping.
proof fn lemma_voice_remove_guild_index(st: CacheState, g: u64, u: u64, built: Map<u64, Set<u64>>)
    requires
        voice_indices_consistent(st),
        st.voice_states.contains_key((g, u)),
        ({
            let shrunk = st.voice_state_guilds[g].remove(u);
            if shrunk == Set::<u64>::empty() {
                built == st.voice_state_guilds.remove(g)
            } else {
                built == st.voice_state_guilds.insert(g, shrunk)
            }
        }),
    ensures
        built =~~= guilds_index_of(st.voice_states.remove((g, u))),
{
    let vnew = st.voice_states.remove((g, u));
    let derived = guilds_index_of(vnew);
    assert forall|d: u64| #[trigger] built.contains_key(d) implies derived.contains_key(d)
        && built[d] =~= derived[d] by {
        assert(st.voice_state_guilds.contains_key(d));
        assert forall|x: u64| #[trigger] built[d].contains(x) implies derived[d].contains(x) by {
            assert(st.voice_state_guilds[d].contains(x));
            assert(st.voice_states.contains_key((d, x)));
            assert((d, x) != (g, u));
            assert(vnew.contains_key((d, x)));
        }
        assert(exists|x: u64| #[trigger] built[d].contains(x)) by {
            if d == g {
                assert(built[d] == st.voice_state_guilds[g].remove(u));
                assert(built[d] != Set::<u64>::empty());
                if forall|x: u64| !(#[trigger] built[d].contains(x)) {
                    assert(built[d] =~= Set::<u64>::empty());
                }
            } else {
                assert(built[d] == st.voice_state_guilds[d]);
                assert(guilds_index_of(st.voice_states).contains_key(d));
                let q = choose|x: u64| #[trigger] st.voice_states.contains_key((d, x));
                assert(built[d].contains(q));
            }
        }
        let xw = choose|x: u64| #[trigger] built[d].contains(x);
        assert(vnew.contains_key((d, xw)));
        assert(derived.contains_key(d));
        assert forall|x: u64| #[trigger] derived[d].contains(x) implies built[d].contains(x) by {
            assert(vnew.contains_key((d, x)));
            assert((d, x) != (g, u));
            assert(st.voice_states.contains_key((d, x)));
            assert(st.voice_state_guilds[d].contains(x));
        }
    }
    assert forall|d: u64| #[trigger] derived.contains_key(d) implies built.contains_key(d) by {
        let x = choose|x: u64| #[trigger] vnew.contains_key((d, x));
        assert((d, x) != (g, u));
        assert(st.voice_states.contains_key((d, x)));
        assert(st.voice_state_guilds.contains_key(d));
        assert(st.voice_state_guilds[d].contains(x));
        if d == g {
            assert(st.voice_state_guilds[g].remove(u).contains(x));
        }
    }
}


/// The cached form of an incoming member.
pub open spec fn cached_of_member(m: Member, g: u64) -> CachedMember {
    CachedMember {
        deaf: m.deaf,
        guild_id: g,
        joined_at: m.joined_at,
        mute: m.mute,
        nick: m.nick,
        pending: m.pending,
        premium_since: m.premium_since,
        roles: m.roles,
        user: m.user,
    }
}

/// How storing one member changes the cache state: the member's user id
/// always enters the guild's member index. A stored member already
/// reflecting the incoming value is otherwise kept and the user store is
/// not touched; an unequal or absent one has its user cached under the
/// guild and its record replaced.
pub open spec fn member_apply(st: CacheState, g: u64, m: Member) -> CacheState {
    if st.members.contains_key((g, m.user.id)) && st.members[(g, m.user.id)].matches(&m) {
        CacheState { guild_members: index_add(st.guild_members, g, m.user.id), ..st }
    } else {
        CacheState {
            users: user_store_upsert(st.users, m.user, Some(g)),
            members: st.members.insert((g, m.user.id), cached_of_member(m, g)),
            guild_members: index_add(st.guild_members, g, m.user.id),
            ..st
        }
    }
}

/// How storing the first `n` members of a list changes the cache state.
pub open spec fn members_apply(st: CacheState, g: u64, list: Seq<Member>, n: int) -> CacheState
    decreases n,
{
    if n <= 0 {
        st
    } else {
        member_apply(members_apply(st, g, list, n - 1), g, list[n - 1])
    }
}

/// The cached form of an incoming emoji: the uploading user is kept by id.
pub open spec fn cached_of_emoji(e: Emoji) -> CachedEmoji {
    CachedEmoji {
        id: e.id,
        animated: e.animated,
        available: e.available,
        managed: e.managed,
        name: e.name,
        require_colons: e.require_colons,
        roles: e.roles,
        user_id: match e.user {
            Option::Some(u) => Option::Some(u.id),
            Option::None => Option::None,
        },
    }
}

/// How storing one emoji changes the cache state: the emoji's id always
/// enters the guild's emoji index. A stored emoji already reflecting the
/// incoming value is otherwise kept; an unequal or absent one has its
/// uploading user, if any, cached under the guild and its record
/// replaced.
pub open spec fn emoji_apply(st: CacheState, g: u64, e: Emoji) -> CacheState {
    if st.emojis.contains_key(e.id) && st.emojis[e.id].data.matches(&e) {
        CacheState { guild_emojis: index_add(st.guild_emojis, g, e.id), ..st }
    } else {
        CacheState {
            users: match e.user {
                Option::Some(u) => user_store_upsert(st.users, u, Some(g)),
                Option::None => st.users,
            },
            emojis: st.emojis.insert(e.id, GuildItem { data: cached_of_emoji(e), guild_id: g }),
            guild_emojis: index_add(st.guild_emojis, g, e.id),
            ..st
        }
    }
}

/// How storing the first `n` emojis of a list changes the cache state.
pub open spec fn emojis_apply(st: CacheState, g: u64, list: Seq<Emoji>, n: int) -> CacheState
    decreases n,
{
    if n <= 0 {
        st
    } else {
        emoji_apply(emojis_apply(st, g, list, n - 1), g, list[n - 1])
    }
}

/// How purging the first `n` of the listed ids changes the cache state
/// during a bulk emoji replacement: an id that the incoming list still
/// carries stays, any other id leaves both the emoji store and the guild's
/// emoji index.
pub open spec fn emoji_purge_apply(
    st: CacheState,
    g: u64,
    ids: Seq<u64>,
    incoming: Seq<u64>,
    n: int,
) -> CacheState
    decreases n,
{
    if n <= 0 {
        st
    } else {
        let prev = emoji_purge_apply(st, g, ids, incoming, n - 1);
        if incoming.contains(ids[n - 1]) {
            prev
        } else {
            CacheState {
                emojis: prev.emojis.remove(ids[n - 1]),
                guild_emojis: index_remove(prev.guild_emojis, g, ids[n - 1]),
                ..prev
            }
        }
    }
}

/// The ids that an emoji list carries, in order.
pub open spec fn emoji_id_list(list: Seq<Emoji>) -> Seq<u64> {
    list.map_values(|e: Emoji| e.id)
}

impl InMemoryCache {
    /// Stores a member under its guild. A stored member already reflecting
    /// the incoming value is kept unchanged; otherwise the member's user is
    /// cached under the guild, the member record is replaced and indexed.
    pub fn cache_member(&mut self, guild_id: u64, member: Member)
        requires
            old(self).wf(),
        ensures
            final(self).wf(),
            final(self).spec_config() == old(self).spec_config(),
            final(self).state() == member_apply(old(self).state(), guild_id, member),
    {
        let member_id = member.user.id;
        let unchanged = match self.members.get(guild_id, member_id) {
            Some(m) => m.matches_incoming(&member),
            None => false,
        };
        let mut set = match self.guild_members.remove(guild_id) {
            Some(s) => s,
            None => IdSet::new(),
        };
        set.insert(member_id);
        self.guild_members.insert(guild_id, set);
        proof {
            lemma_sets_of_remove(old(self).guild_members@, guild_id);
            lemma_sets_of_insert(old(self).guild_members@.remove(guild_id), guild_id, set);
            assert(sets_of(self.guild_members@) =~= index_add(
                old(self).state().guild_members,
                guild_id,
                member_id,
            ));
        }
        if unchanged {
            proof {
                assert(self.state() =~= member_apply(old(self).state(), guild_id, member));
            }
            return ;
        }
        let user_copy = member.user.copy_value();
        self.cache_user(user_copy, Some(guild_id));
        proof {
            assert(user_sets_nonempty(self.state()));
        }
        let ghost users_mid = self.state().users;
        let Member { deaf, guild_id: _, joined_at, mute, nick, pending, premium_since, roles, user } =
            member;
        let cached = CachedMember {
            deaf,
            guild_id,
            joined_at,
            mute,
            nick,
            pending,
            premium_since,
            roles,
            user,
        };
        self.members.insert(guild_id, member_id, cached);
        proof {
            assert(self.state() =~= member_apply(old(self).state(), guild_id, member));
            assert(self.state().users =~= users_mid);
            assert forall|u: u64| #[trigger] self.state().users.contains_key(u) implies self
                .state().users[u].1 != Set::<u64>::empty() by {
                assert(users_mid.contains_key(u));
                assert(users_mid[u].1 != Set::<u64>::empty());
            }
            assert(user_sets_nonempty(self.state()));
        }
    }

    /// Stores every member of a list under one guild, in order.
    pub fn cache_members(&mut self, guild_id: u64, members: Vec<Member>)
        requires
            old(self).wf(),
        ensures
            final(self).wf(),
            final(self).spec_config() == old(self).spec_config(),
            final(self).state() == members_apply(
                old(self).state(),
                guild_id,
                members@,
                members@.len() as int,
            ),
    {
        let ghost orig = members@;
        let n0 = members.len();
        proof {
            assert(orig.len() == n0 as int);
        }
        let mut members = members;
        let mut i: usize = 0;
        while members.len() > 0
            invariant
                self.wf(),
                self.spec_config() == old(self).spec_config(),
                i + members@.len() == orig.len(),
                orig.len() <= usize::MAX,
                members@ =~= orig.skip(i as int),
                self.state() == members_apply(old(self).state(), guild_id, orig, i as int),
            decreases members@.len(),
        {
            let member = members.remove(0);
            proof {
                assert(member == orig[i as int]);
                assert(members@ =~= orig.skip(i + 1));
            }
            self.cache_member(guild_id, member);
            proof {
                assert(self.state() == members_apply(old(self).state(), guild_id, orig, i + 1));
            }
            i = i + 1;
        }
        proof {
            assert(i as int == orig.len());
        }
    }

    /// Stores an emoji under its guild. A stored emoji already reflecting
    /// the incoming value is kept unchanged; otherwise the uploading user,
    /// if any, is cached under the guild, and the emoji is stored and
    /// indexed.
    pub fn cache_emoji(&mut self, guild_id: u64, emoji: Emoji)
        requires
            old(self).wf(),
        ensures
            final(self).wf(),
            final(self).spec_config() == old(self).spec_config(),
            final(self).state() == emoji_apply(old(self).state(), guild_id, emoji),
    {
        let unchanged = match self.emojis.get(emoji.id) {
            Some(item) => item.data.matches_incoming(&emoji),
            None => false,
        };
        let mut set = match self.guild_emojis.remove(guild_id) {
            Some(s) => s,
            None => IdSet::new(),
        };
        set.insert(emoji.id);
        self.guild_emojis.insert(guild_id, set);
        proof {
            lemma_sets_of_remove(old(self).guild_emojis@, guild_id);
            lemma_sets_of_insert(old(self).guild_emojis@.remove(guild_id), guild_id, set);
            assert(sets_of(self.guild_emojis@) =~= index_add(
                old(self).state().guild_emojis,
                guild_id,
                emoji.id,
            ));
        }
        if unchanged {
            proof {
                assert(self.state() =~= emoji_apply(old(self).state(), guild_id, emoji));
            }
            return ;
        }
        let Emoji { id, animated, available, managed, name, require_colons, roles, user } = emoji;
        let user_id = match &user {
            Some(u) => Some(u.id),
            None => None,
        };
        if let Some(u) = user {
            self.cache_user(u, Some(guild_id));
            proof {
                assert(user_sets_nonempty(self.state()));
            }
        }
        let ghost users_mid = self.state().users;
        proof {
            assert(user_sets_nonempty(self.state()));
        }
        let cached = CachedEmoji { id, animated, available, managed, name, require_colons, roles, user_id };
        self.emojis.insert(id, GuildItem { data: cached, guild_id });
        proof {
            assert(self.state() =~= emoji_apply(old(self).state(), guild_id, emoji));
            assert(self.state().users =~= users_mid);
            assert forall|u: u64| #[trigger] self.state().users.contains_key(u) implies self
                .state().users[u].1 != Set::<u64>::empty() by {
                assert(users_mid.contains_key(u));
                assert(users_mid[u].1 != Set::<u64>::empty());
            }
            assert(user_sets_nonempty(self.state()));
        }
    }

    /// Replaces a guild's emoji collection: ids that the incoming list no
    /// longer carries are purged from the emoji store and the guild's
    /// index, then every incoming emoji is stored. Removals come first, so
    /// an unchanged list is a no-op rather than a purge and refill.
    pub fn cache_emojis(&mut self, guild_id: u64, emojis: Vec<Emoji>)
        requires
            old(self).wf(),
        ensures
            final(self).wf(),
            final(self).spec_config() == old(self).spec_config(),
            ({
                let st = old(self).state();
                exists|stale: Seq<u64>|
                    {
                        &&& (#[trigger] stale.no_duplicates())
                        &&& (forall|x: u64| stale.contains(x) <==> (st.guild_emojis.contains_key(
                            guild_id,
                        ) && st.guild_emojis[guild_id].contains(x)))
                        &&& final(self).state() == emojis_apply(
                            emoji_purge_apply(
                                st,
                                guild_id,
                                stale,
                                emoji_id_list(emojis@),
                                stale.len() as int,
                            ),
                            guild_id,
                            emojis@,
                            emojis@.len() as int,
                        )
                    }
            }),
    {
        let ghost st = old(self).state();
        let mut incoming: Vec<u64> = Vec::new();
        let mut i: usize = 0;
        while i < emojis.len()
            invariant
                i <= emojis@.len(),
                incoming@ =~= emoji_id_list(emojis@).take(i as int),
            decreases emojis@.len() - i,
        {
            incoming.push(emojis[i].id);
            proof {
                assert(incoming@ =~= emoji_id_list(emojis@).take(i + 1));
            }
            i = i + 1;
        }
        proof {
            assert(incoming@ =~= emoji_id_list(emojis@));
        }
        let ghost orig = emojis@;
        let has_index = self.guild_emojis.contains_key(guild_id);
        let current: Vec<u64> = match self.guild_emojis.get(guild_id) {
            Some(set) => set.to_vec(),
            None => Vec::new(),
        };
        proof {
            if !has_index {
                assert(forall|x: u64| !current@.contains(x));
            }
        }
        let ghost cur = current@;
        let mut k: usize = 0;
        while k < current.len()
            invariant
                self.wf(),
                self.spec_config() == old(self).spec_config(),
                k <= cur.len(),
                current@ == cur,
                incoming@ == emoji_id_list(emojis@),
                self.state() == emoji_purge_apply(
                    old(self).state(),
                    guild_id,
                    cur,
                    emoji_id_list(emojis@),
                    k as int,
                ),
            decreases cur.len() - k,
        {
            let id = current[k];
            let mut stale = true;
            let mut j: usize = 0;
            while j < incoming.len()
                invariant
                    j <= incoming@.len(),
                    stale == !incoming@.take(j as int).contains(id),
                decreases incoming@.len() - j,
            {
                if incoming[j] == id {
                    stale = false;
                    proof {
                        assert(incoming@.take(j + 1)[j as int] == id);
                        assert(incoming@.take(j + 1).contains(id));
                    }
                } else {
                    proof {
                        assert(forall|t: int|
                            0 <= t < j + 1 ==> incoming@.take(j + 1)[t] == incoming@.take(
                                j as int,
                            ).push(incoming@[j as int])[t]);
                        assert(incoming@.take(j + 1) =~= incoming@.take(j as int).push(
                            incoming@[j as int],
                        ));
                    }
                }
                j = j + 1;
            }
            proof {
                assert(incoming@.take(incoming@.len() as int) =~= incoming@);
                assert(stale == !incoming@.contains(id));
            }
            let ghost prev_state = self.state();
            if stale {
                let ghost pre_map = self.guild_emojis@;
                let _ = self.emojis.remove(id);
                match self.guild_emojis.remove(guild_id) {
                    Some(mut set) => {
                        set.remove(id);
                        self.guild_emojis.insert(guild_id, set);
                        proof {
                            lemma_sets_of_remove(pre_map, guild_id);
                            lemma_sets_of_insert(pre_map.remove(guild_id), guild_id, set);
                            assert(sets_of(self.guild_emojis@) =~= index_remove(
                                sets_of(pre_map),
                                guild_id,
                                id,
                            ));
                        }
                    },
                    None => {
                        proof {
                            assert(sets_of(self.guild_emojis@) =~= index_remove(
                                sets_of(pre_map),
                                guild_id,
                                id,
                            ));
                        }
                    },
                }
                proof {
                    assert(self.state() =~= (CacheState {
                        emojis: prev_state.emojis.remove(id),
                        guild_emojis: index_remove(prev_state.guild_emojis, guild_id, id),
                        ..prev_state
                    }));
                    assert(!emoji_id_list(emojis@).contains(cur[k as int]));
                    assert(self.state() == emoji_purge_apply(
                        old(self).state(),
                        guild_id,
                        cur,
                        emoji_id_list(emojis@),
                        k + 1,
                    ));
                }
            } else {
                proof {
                    assert(emoji_id_list(emojis@).contains(cur[k as int]));
                    assert(self.state() == emoji_purge_apply(
                        old(self).state(),
                        guild_id,
                        cur,
                        emoji_id_list(emojis@),
                        k + 1,
                    ));
                }
            }
            k = k + 1;
        }
        let ghost purged = self.state();
        let n0 = emojis.len();
        proof {
            assert(orig.len() == n0 as int);
        }
        let mut emojis = emojis;
        let mut n: usize = 0;
        while emojis.len() > 0
            invariant
                self.wf(),
                self.spec_config() == old(self).spec_config(),
                n + emojis@.len() == orig.len(),
                orig.len() <= usize::MAX,
                emojis@ =~= orig.skip(n as int),
                self.state() == emojis_apply(purged, guild_id, orig, n as int),
            decreases emojis@.len(),
        {
            let e = emojis.remove(0);
            proof {
                assert(e == orig[n as int]);
                assert(emojis@ =~= orig.skip(n + 1));
            }
            self.cache_emoji(guild_id, e);
            proof {
                assert(self.state() == emojis_apply(purged, guild_id, orig, n + 1));
            }
            n = n + 1;
        }
        proof {
            assert(n as int == orig.len());
        }
        proof {
            assert(cur.no_duplicates());
            assert(forall|x: u64| cur.contains(x) <==> (st.guild_emojis.contains_key(guild_id)
                && st.guild_emojis[guild_id].contains(x)));
            assert(self.state() == emojis_apply(
                emoji_purge_apply(st, guild_id, cur, emoji_id_list(orig), cur.len() as int),
                guild_id,
                orig,
                orig.len() as int,
            ));
        }
    }
}


/// The summary record that a guild-create event leaves in the guild store.
pub open spec fn cached_of_guild(g: Guild) -> CachedGuild {
    CachedGuild {
        id: g.id,
        description: g.description,
        features: g.features,
        icon: g.icon,
        member_count: g.member_count,
        owner_id: g.owner_id,
        premium_subscription_count: g.premium_subscription_count,
        premium_tier: g.premium_tier,
        unavailable: g.unavailable,
        vanity_url_code: g.vanity_url_code,
    }
}

/// How caching a whole guild changes the cache state. For each resource
/// kind that the configuration stores, the guild's index is reset to a
/// fresh empty set and the incoming children are stored through the
/// per-entity operations; finally the guild stops being unavailable and
/// its summary record is stored.
pub open spec fn guild_apply(st: CacheState, config: Config, guild: Guild) -> CacheState {
    let st1 = if config.resource_types.spec_contains(ResourceType { bits: RESOURCE_CHANNEL }) {
        channels_apply(
            CacheState { guild_channels: st.guild_channels.insert(guild.id, Set::empty()), ..st },
            guild.id,
            guild.channels@,
            guild.channels@.len() as int,
        )
    } else {
        st
    };
    let st2 = if config.resource_types.spec_contains(ResourceType { bits: RESOURCE_EMOJI }) {
        emojis_apply(
            CacheState { guild_emojis: st1.guild_emojis.insert(guild.id, Set::empty()), ..st1 },
            guild.id,
            guild.emojis@,
            guild.emojis@.len() as int,
        )
    } else {
        st1
    };
    let st3 = if config.resource_types.spec_contains(ResourceType { bits: RESOURCE_MEMBER }) {
        members_apply(
            CacheState { guild_members: st2.guild_members.insert(guild.id, Set::empty()), ..st2 },
            guild.id,
            guild.members@,
            guild.members@.len() as int,
        )
    } else {
        st2
    };
    let st4 = if config.resource_types.spec_contains(ResourceType { bits: RESOURCE_PRESENCE }) {
        CacheState {
            guild_presences: presences_apply(
                st3.guild_presences.insert(guild.id, Set::empty()),
                guild.id,
                guild.presences@,
                guild.presences@.len() as int,
            ),
            ..st3
        }
    } else {
        st3
    };
    let st5 = if config.resource_types.spec_contains(ResourceType { bits: RESOURCE_ROLE }) {
        roles_apply(
            CacheState { guild_roles: st4.guild_roles.insert(guild.id, Set::empty()), ..st4 },
            guild.id,
            guild.roles@,
            guild.roles@.len() as int,
        )
    } else {
        st4
    };
    let st6 = if config.resource_types.spec_contains(ResourceType { bits: RESOURCE_VOICE_STATE }) {
        voice_states_apply(st5, guild.voice_states@, guild.voice_states@.len() as int)
    } else {
        st5
    };
    CacheState {
        unavailable_guilds: st6.unavailable_guilds.remove(guild.id),
        guilds: st6.guilds.insert(guild.id, cached_of_guild(guild)),
        ..st6
    }
}

/// The effective permission bits after folding the first `n` supplied role
/// ids over a base: each resolvable role contributes its bits, the rest
/// are skipped.
pub open spec fn perms_fold(
    roles: Map<u64, GuildItem<Role>>,
    ids: Seq<u64>,
    base: u64,
    n: int,
) -> u64
    decreases n,
{
    if n <= 0 {
        base
    } else {
        let acc = perms_fold(roles, ids, base, n - 1);
        if roles.contains_key(ids[n - 1]) {
            acc | roles[ids[n - 1]].data.permissions
        } else {
            acc
        }
    }
}

/// The guild-level permissions of a member: the owner has every
/// permission; otherwise the default role's bits (its id is the guild id)
/// are folded with the bits of every resolvable supplied role, and an
/// administrator bit grants every permission.
pub open spec fn spec_guild_permissions(
    st: CacheState,
    guild_id: u64,
    user_id: u64,
    role_ids: Seq<u64>,
) -> u64 {
    if st.guilds.contains_key(guild_id) && st.guilds[guild_id].owner_id == user_id {
        ALL_PERMISSIONS
    } else {
        let base = if st.roles.contains_key(guild_id) {
            st.roles[guild_id].data.permissions
        } else {
            0u64
        };
        let folded = perms_fold(st.roles, role_ids, base, role_ids.len() as int);
        if folded & ADMINISTRATOR != 0 {
            ALL_PERMISSIONS
        } else {
            folded
        }
    }
}

/// Whether a message sequence is strictly ordered by message id.
pub open spec fn msgs_sorted(s: Seq<CachedMessage>) -> bool {
    forall|i: int, j: int| 0 <= i < j < s.len() ==> s[i].id < s[j].id
}

/// Where a message lands in an id-ordered sequence: before every larger
/// id, in place of an equal id.
pub open spec fn insert_sorted(s: Seq<CachedMessage>, m: CachedMessage) -> Seq<CachedMessage>
    decreases s.len(),
{
    if s.len() == 0 {
        seq![m]
    } else if s.last().id < m.id {
        s.push(m)
    } else if s.last().id == m.id {
        s.drop_last().push(m)
    } else {
        insert_sorted(s.drop_last(), m).push(s.last())
    }
}

/// An id-ordered message sequence trimmed to the retention bound: the
/// oldest message leaves first.
pub open spec fn evict_oldest(s: Seq<CachedMessage>, bound: nat) -> Seq<CachedMessage> {
    if s.len() > bound {
        s.drop_first()
    } else {
        s
    }
}

impl InMemoryCache {
    /// Caches a whole guild: for each resource kind the configuration
    /// stores, the guild's index is reset and the incoming children are
    /// stored; every stored channel carries the guild's id afterwards.
    /// Finally the guild stops being unavailable and its summary record is
    /// stored.
    pub fn cache_guild(&mut self, guild: Guild)
        requires
            old(self).wf(),
        ensures
            final(self).wf(),
            final(self).spec_config() == old(self).spec_config(),
            final(self).state() == guild_apply(old(self).state(), old(self).spec_config(), guild),
    {
        let ghost st0 = old(self).state();
        let Guild {
            id,
            description,
            features,
            icon,
            member_count,
            owner_id,
            premium_subscription_count,
            premium_tier,
            unavailable,
            vanity_url_code,
            channels,
            emojis,
            members,
            presences,
            roles,
            voice_states,
        } = guild;
        if self.wants(ResourceType { bits: RESOURCE_CHANNEL }) {
            let ghost pre = self.guild_channels@;
            self.guild_channels.insert(id, IdSet::new());
            proof {
                lemma_sets_of_insert(pre, id, self.guild_channels@[id]);
            }
            self.cache_guild_channels(id, &channels);
        }
        if self.wants(ResourceType { bits: RESOURCE_EMOJI }) {
            let ghost pre = self.guild_emojis@;
            self.guild_emojis.insert(id, IdSet::new());
            proof {
                lemma_sets_of_insert(pre, id, self.guild_emojis@[id]);
            }
            let ghost pre_st = self.state();
            let ghost emojis_view = emojis@;
            self.cache_emojis(id, emojis);
            proof {
                let stale = choose|stale: Seq<u64>|
                    {
                        &&& (#[trigger] stale.no_duplicates())
                        &&& (forall|x: u64| stale.contains(x) <==> (pre_st.guild_emojis
                            .contains_key(id) && pre_st.guild_emojis[id].contains(x)))
                        &&& self.state() == emojis_apply(
                            emoji_purge_apply(
                                pre_st,
                                id,
                                stale,
                                emoji_id_list(emojis_view),
                                stale.len() as int,
                            ),
                            id,
                            emojis_view,
                            emojis_view.len() as int,
                        )
                    };
                assert(pre_st.guild_emojis.contains_key(id));
                assert(pre_st.guild_emojis[id] == Set::<u64>::empty());
                assert(forall|x: u64| !stale.contains(x));
                if stale.len() > 0 {
                    assert(stale.contains(stale[0]));
                }
                assert(stale.len() == 0);
                assert(emoji_purge_apply(
                    pre_st,
                    id,
                    stale,
                    emoji_id_list(emojis_view),
                    0,
                ) == pre_st);
                assert(self.state() == emojis_apply(
                    pre_st,
                    id,
                    emojis_view,
                    emojis_view.len() as int,
                ));
            }
        }
        if self.wants(ResourceType { bits: RESOURCE_MEMBER }) {
            let ghost pre = self.guild_members@;
            self.guild_members.insert(id, IdSet::new());
            proof {
                lemma_sets_of_insert(pre, id, self.guild_members@[id]);
            }
            self.cache_members(id, members);
        }
        if self.wants(ResourceType { bits: RESOURCE_PRESENCE }) {
            let ghost pre = self.guild_presences@;
            self.guild_presences.insert(id, IdSet::new());
            proof {
                lemma_sets_of_insert(pre, id, self.guild_presences@[id]);
            }
            self.cache_presences(id, &presences);
        }
        if self.wants(ResourceType { bits: RESOURCE_ROLE }) {
            let ghost pre = self.guild_roles@;
            self.guild_roles.insert(id, IdSet::new());
            proof {
                lemma_sets_of_insert(pre, id, self.guild_roles@[id]);
            }
            self.cache_roles(id, &roles);
        }
        if self.wants(ResourceType { bits: RESOURCE_VOICE_STATE }) {
            self.cache_voice_states(&voice_states);
        }
        self.unavailable_guilds.remove(id);
        let record = CachedGuild {
            id,
            description,
            features,
            icon,
            member_count,
            owner_id,
            premium_subscription_count,
            premium_tier,
            unavailable,
            vanity_url_code,
        };
        self.guilds.insert(id, record);
        proof {
            assert(self.state() =~= guild_apply(st0, old(self).spec_config(), guild));
        }
    }

    /// Computes a member's guild-level permissions: the guild's owner has
    /// every permission; otherwise the default role's bits are folded with
    /// the bits of every resolvable supplied role id, and an administrator
    /// bit grants every permission. Unresolvable role ids are skipped; a
    /// missing guild or default role contributes no bits.
    pub fn guild_permissions(&self, guild_id: u64, user_id: u64, role_ids: &Vec<u64>) -> (r: u64)
        requires
            self.wf(),
        ensures
            r == spec_guild_permissions(self.state(), guild_id, user_id, role_ids@),
    {
        if let Some(guild) = self.guild(guild_id) {
            if guild.owner_id == user_id {
                return ALL_PERMISSIONS;
            }
        }
        let everyone = match self.role(guild_id) {
            Some(role) => role.permissions,
            None => 0u64,
        };
        let mut perms = everyone;
        let mut i: usize = 0;
        while i < role_ids.len()
            invariant
                self.wf(),
                i <= role_ids@.len(),
                perms == perms_fold(self.state().roles, role_ids@, everyone, i as int),
            decreases role_ids@.len() - i,
        {
            match self.role(role_ids[i]) {
                Some(role) => {
                    perms = perms | role.permissions;
                },
                None => {},
            }
            i = i + 1;
        }
        if perms & ADMINISTRATOR != 0 {
            ALL_PERMISSIONS
        } else {
            perms
        }
    }

    /// Stores a message in its channel's id-ordered history: it lands
    /// before every younger message and replaces one with the same id; the
    /// oldest message is evicted when the channel exceeds the configured
    /// retention bound.
    pub fn cache_message(&mut self, message: CachedMessage)
        requires
            old(self).wf(),
        ensures
            final(self).wf(),
            final(self).spec_config() == old(self).spec_config(),
            ({
                let st = old(self).state();
                let prior = if st.messages.contains_key(message.channel_id) {
                    st.messages[message.channel_id]
                } else {
                    Seq::empty()
                };
                final(self).state() == (CacheState {
                    messages: st.messages.insert(
                        message.channel_id,
                        evict_oldest(
                            insert_sorted(prior, message),
                            old(self).spec_config().message_cache_size as nat,
                        ),
                    ),
                    ..st
                })
            }),
    {
        let channel_id = message.channel_id;
        let ghost msg = message;
        let ghost pre = self.messages@;
        let mut list = match self.messages.remove(channel_id) {
            Some(l) => l,
            None => Vec::new(),
        };
        insert_message(&mut list, message);
        if list.len() > self.config.message_cache_size {
            let _ = list.remove(0);
        }
        self.messages.insert(channel_id, list);
        proof {
            let bound = old(self).spec_config().message_cache_size as nat;
            let prior = if old(self).state().messages.contains_key(channel_id) {
                old(self).state().messages[channel_id]
            } else {
                Seq::<CachedMessage>::empty()
            };
            let t = insert_sorted(prior, msg);
            assert(msgs_sorted(prior));
            lemma_insert_sorted_props(prior, msg);
            assert(list@ =~= evict_oldest(t, bound));
            assert(msgs_sorted(list@)) by {
                if t.len() > bound {
                    assert(list@ =~= t.drop_first());
                    assert forall|i: int, j: int|
                        0 <= i < j < list@.len() implies list@[i].id < list@[j].id by {
                        assert(t[i + 1].id < t[j + 1].id);
                    }
                }
            }
            assert(list@.len() <= bound);
            lemma_messages_of_remove(pre, channel_id);
            lemma_messages_of_insert(pre.remove(channel_id), channel_id, list);
            assert(messages_of(self.messages@) =~= old(self).state().messages.insert(
                channel_id,
                evict_oldest(t, bound),
            ));
            assert(self.state() =~= (CacheState {
                messages: old(self).state().messages.insert(channel_id, evict_oldest(t, bound)),
                ..old(self).state()
            }));
        }
    }
}

/// Places a message in an id-ordered list, replacing any message with the
/// same id.
fn insert_message(list: &mut Vec<CachedMessage>, message: CachedMessage)
    ensures
        final(list)@ == insert_sorted(old(list)@, message),
    decreases old(list)@.len(),
{
    if list.is_empty() {
        list.push(message);
        proof {
            assert(list@ =~= seq![message]);
        }
    } else {
        let last_id = list[list.len() - 1].id;
        if last_id < message.id {
            list.push(message);
        } else if last_id == message.id {
            let _ = list.pop();
            list.push(message);
            proof {
                assert(list@ =~= old(list)@.drop_last().push(message));
            }
        } else {
            let tail = match list.pop() {
                Some(t) => t,
                None => vstd::pervasive::unreached(),
            };
            insert_message(list, message);
            list.push(tail);
        }
    }
}

/// An ordered insert keeps the order, never shrinks the list, and grows it
/// by at most one.
proof fn lemma_insert_sorted_props(s: Seq<CachedMessage>, m: CachedMessage)
    requires
        msgs_sorted(s),
    ensures
        msgs_sorted(insert_sorted(s, m)),
        insert_sorted(s, m).len() <= s.len() + 1,
        insert_sorted(s, m).len() >= s.len(),
        forall|x: u64|
            #![trigger msg_ids_has(insert_sorted(s, m), x)]
            #![trigger msg_ids_has(s, x)]
            msg_ids_has(insert_sorted(s, m), x) <==> (msg_ids_has(s, x) || x == m.id),
    decreases s.len(),
{
    let t = insert_sorted(s, m);
    if s.len() == 0 {
        assert(t =~= seq![m]);
        assert forall|x: u64| msg_ids_has(t, x) implies (msg_ids_has(s, x) || x == m.id) by {
            let i = choose|i: int| 0 <= i < t.len() && (#[trigger] t[i]).id == x;
        }
        assert(t[0].id == m.id);
    } else if s.last().id < m.id {
        assert(t == s.push(m));
        assert forall|i: int, j: int| 0 <= i < j < t.len() implies t[i].id < t[j].id by {
            if j < t.len() - 1 {
                assert(s[i].id < s[j].id);
            } else {
                if i < s.len() - 1 {
                    assert(s[i].id < s.last().id);
                }
            }
        }
        assert forall|x: u64| msg_ids_has(t, x) implies (msg_ids_has(s, x) || x == m.id) by {
            let i = choose|i: int| 0 <= i < t.len() && (#[trigger] t[i]).id == x;
            if i < t.len() - 1 {
                assert(s[i].id == x);
            }
        }
        assert forall|x: u64| (msg_ids_has(s, x) || x == m.id) implies msg_ids_has(t, x) by {
            if x == m.id {
                assert(t[t.len() - 1].id == x);
            } else {
                let i = choose|i: int| 0 <= i < s.len() && (#[trigger] s[i]).id == x;
                assert(t[i].id == x);
            }
        }
    } else if s.last().id == m.id {
        assert(t == s.drop_last().push(m));
        assert forall|i: int, j: int| 0 <= i < j < t.len() implies t[i].id < t[j].id by {
            if j < t.len() - 1 {
                assert(s[i].id < s[j].id);
            } else {
                assert(t[i] == s[i]);
                assert(s[i].id < s.last().id);
            }
        }
        assert forall|x: u64| msg_ids_has(t, x) implies (msg_ids_has(s, x) || x == m.id) by {
            let i = choose|i: int| 0 <= i < t.len() && (#[trigger] t[i]).id == x;
            if i < t.len() - 1 {
                assert(s[i].id == x);
            }
        }
        assert forall|x: u64| (msg_ids_has(s, x) || x == m.id) implies msg_ids_has(t, x) by {
            if x == m.id {
                assert(t[t.len() - 1].id == x);
            } else {
                let i = choose|i: int| 0 <= i < s.len() && (#[trigger] s[i]).id == x;
                assert(i < s.len() - 1 || s[i].id == s.last().id);
                if i < s.len() - 1 {
                    assert(t[i].id == x);
                }
            }
        }
    } else {
        assert(msgs_sorted(s.drop_last()));
        lemma_insert_sorted_props(s.drop_last(), m);
        let u = insert_sorted(s.drop_last(), m);
        assert(t == u.push(s.last()));
        assert forall|i: int, j: int| 0 <= i < j < t.len() implies t[i].id < t[j].id by {
            if j < t.len() - 1 {
                assert(u[i].id < u[j].id);
            } else {
                assert(t[i] == u[i]);
                assert(msg_ids_has(u, u[i].id));
                assert(msg_ids_has(s.drop_last(), u[i].id) || u[i].id == m.id);
                if msg_ids_has(s.drop_last(), u[i].id) {
                    let w = choose|w: int|
                        0 <= w < s.drop_last().len() && (#[trigger] s.drop_last()[w]).id == u[i].id;
                    assert(s[w].id < s.last().id);
                } else {
                    assert(u[i].id == m.id);
                    assert(m.id < s.last().id);
                }
            }
        }
        assert forall|x: u64| msg_ids_has(t, x) implies (msg_ids_has(s, x) || x == m.id) by {
            let i = choose|i: int| 0 <= i < t.len() && (#[trigger] t[i]).id == x;
            if i < t.len() - 1 {
                assert(msg_ids_has(u, x));
                if msg_ids_has(s.drop_last(), x) {
                    let w = choose|w: int|
                        0 <= w < s.drop_last().len() && (#[trigger] s.drop_last()[w]).id == x;
                    assert(s[w].id == x);
                }
            } else {
                assert(s[s.len() - 1].id == x);
            }
        }
        assert forall|x: u64| (msg_ids_has(s, x) || x == m.id) implies msg_ids_has(t, x) by {
            if x == m.id {
                assert(msg_ids_has(u, x));
                let w = choose|w: int| 0 <= w < u.len() && (#[trigger] u[w]).id == x;
                assert(t[w].id == x);
            } else {
                let i = choose|i: int| 0 <= i < s.len() && (#[trigger] s[i]).id == x;
                if i < s.len() - 1 {
                    assert(s.drop_last()[i] == s[i]);
                    assert((s.drop_last()[i]).id == x);
                    assert(msg_ids_has(s.drop_last(), x));
                    assert(msg_ids_has(u, x));
                    let w = choose|w: int| 0 <= w < u.len() && (#[trigger] u[w]).id == x;
                    assert(t[w].id == x);
                } else {
                    assert(t[t.len() - 1].id == x);
                }
            }
        }
    }
}

/// Whether some message of the sequence carries this id.
pub open spec fn msg_ids_has(s: Seq<CachedMessage>, x: u64) -> bool {
    exists|i: int| 0 <= i < s.len() && (#[trigger] s[i]).id == x
}


impl InMemoryCache {
    /// Applies an inbound event to the cache. Exactly the event's declared
    /// mutation runs to completion before this returns.
    pub fn update<T: crate::updates::UpdateCache>(&mut self, value: T)
        requires
            old(self).wf(),
        ensures
            final(self).wf(),
            final(self).spec_config() == old(self).spec_config(),
            value.applied(old(self).state(), final(self).state()),
    {
        value.update(self);
    }
}

impl InMemoryCacheBuilder {
    /// Builds the configured cache.
    pub fn build(self) -> (r: InMemoryCache)
        ensures
            r.wf(),
            r.state() == empty_state(),
            r.spec_config() == self.spec_config(),
    {
        InMemoryCache::new_with_config(self.build_config())
    }
}


impl InMemoryCache {
    /// How many voice states are stored over all guilds.
    pub fn voice_states_count(&self) -> (r: usize)
        requires
            self.wf(),
        ensures
            r == self.state().voice_states.dom().len(),
    {
        self.voice_states.len()
    }

    /// How many voice channels currently have occupants.
    pub fn voice_channels_count(&self) -> (r: usize)
        requires
            self.wf(),
        ensures
            r == self.state().voice_state_channels.dom().len(),
    {
        proof {
            assert(pair_sets_of(self.voice_state_channels@).dom()
                =~= self.voice_state_channels@.dom());
        }
        self.voice_state_channels.len()
    }

    /// How many guilds currently have voice-state occupants.
    pub fn voice_guilds_count(&self) -> (r: usize)
        requires
            self.wf(),
        ensures
            r == self.state().voice_state_guilds.dom().len(),
    {
        proof {
            assert(sets_of(self.voice_state_guilds@).dom() =~= self.voice_state_guilds@.dom());
        }
        self.voice_state_guilds.len()
    }

    /// The users of a guild that currently occupy a voice channel, from
    /// the reverse index: absent if the guild has none.
    pub fn voice_guild_users(&self, guild_id: u64) -> (r: Option<Vec<u64>>)
        requires
            self.wf(),
        ensures
            match r {
                Some(v) => self.state().voice_state_guilds.contains_key(guild_id) && v@.len()
                    == self.state().voice_state_guilds[guild_id].len() && forall|u: u64|
                    v@.contains(u) <==> self.state().voice_state_guilds[guild_id].contains(u),
                None => !self.state().voice_state_guilds.contains_key(guild_id),
            },
    {
        match self.voice_state_guilds.get(guild_id) {
            Some(s) => Some(s.to_vec()),
            None => None,
        }
    }

    /// How many emojis are stored over all guilds.
    pub fn emojis_count(&self) -> (r: usize)
        requires
            self.wf(),
        ensures
            r == self.state().emojis.dom().len(),
    {
        self.emojis.len()
    }

    /// How many members are stored over all guilds.
    pub fn members_count(&self) -> (r: usize)
        requires
            self.wf(),
        ensures
            r == self.state().members.dom().len(),
    {
        self.members.len()
    }
}


impl InMemoryCache {
    /// Removes an emoji, returning it; its id also leaves its guild's
    /// emoji index.
    pub fn delete_emoji(&mut self, emoji_id: u64) -> (r: Option<CachedEmoji>)
        requires
            old(self).wf(),
        ensures
            final(self).wf(),
            final(self).spec_config() == old(self).spec_config(),
            ({
                let st = old(self).state();
                if st.emojis.contains_key(emoji_id) {
                    final(self).state() == (CacheState {
                        emojis: st.emojis.remove(emoji_id),
                        guild_emojis: index_remove(
                            st.guild_emojis,
                            st.emojis[emoji_id].guild_id,
                            emoji_id,
                        ),
                        ..st
                    }) && r == Some(st.emojis[emoji_id].data)
                } else {
                    final(self).state() == st && r is None
                }
            }),
    {
        let item = match self.emojis.remove(emoji_id) {
            Some(item) => item,
            None => {
                return None;
            },
        };
        let guild_id = item.guild_id;
        match self.guild_emojis.remove(guild_id) {
            Some(mut set) => {
                set.remove(emoji_id);
                self.guild_emojis.insert(guild_id, set);
                proof {
                    lemma_sets_of_remove(old(self).guild_emojis@, guild_id);
                    lemma_sets_of_insert(old(self).guild_emojis@.remove(guild_id), guild_id, set);
                    assert(sets_of(self.guild_emojis@) =~= index_remove(
                        old(self).state().guild_emojis,
                        guild_id,
                        emoji_id,
                    ));
                }
            },
            None => {
                proof {
                    assert(sets_of(self.guild_emojis@) =~= index_remove(
                        old(self).state().guild_emojis,
                        guild_id,
                        emoji_id,
                    ));
                }
            },
        }
        proof {
            assert(self.state() =~= (CacheState {
                emojis: old(self).state().emojis.remove(emoji_id),
                guild_emojis: index_remove(old(self).state().guild_emojis, guild_id, emoji_id),
                ..old(self).state()
            }));
        }
        Some(item.data)
    }
}

/// The stores a guild deletion never touches: they stay exactly as they
/// were.
pub open spec fn untouched_in_delete(st: CacheState, cur: CacheState) -> bool {
    &&& cur.channels_private == st.channels_private
    &&& cur.current_user == st.current_user
    &&& cur.groups == st.groups
    &&& cur.messages == st.messages
    &&& cur.unavailable_guilds == st.unavailable_guilds
    &&& cur.guild_presences == st.guild_presences
}

impl InMemoryCache {
    /// Deletes a guild and cascades over every store indexed under its id:
    /// its channels, emojis, roles, members, presences and voice states
    /// all go, its index sets are dropped, and finally the guild record
    /// itself is removed. Users reachable only through this guild are
    /// evicted. Everything not indexed under this guild survives
    /// untouched: other guilds' records, indices and voice states, the
    /// private channels, groups, messages, the current user and the
    /// unavailable set.
    pub fn guild_delete(&mut self, guild_id: u64)
        requires
            old(self).wf(),
        ensures
            final(self).wf(),
            final(self).spec_config() == old(self).spec_config(),
            !final(self).state().guild_channels.contains_key(guild_id),
            !final(self).state().guild_emojis.contains_key(guild_id),
            !final(self).state().guild_members.contains_key(guild_id),
            !final(self).state().guild_presences.contains_key(guild_id),
            !final(self).state().guild_roles.contains_key(guild_id),
            !final(self).state().voice_state_guilds.contains_key(guild_id),
            forall|u: u64| !final(self).state().voice_states.contains_key((guild_id, u)),
            ({
                let st = old(self).state();
                let fin = final(self).state();
                &&& fin.guilds == st.guilds.remove(guild_id)
                &&& fin.channels_private == st.channels_private
                &&& fin.current_user == st.current_user
                &&& fin.groups == st.groups
                &&& fin.messages == st.messages
                &&& fin.unavailable_guilds == st.unavailable_guilds
                &&& fin.guild_presences == st.guild_presences.remove(guild_id)
                &&& (st.guild_channels.contains_key(guild_id) ==> forall|id: u64|
                    st.guild_channels[guild_id].contains(id) ==> !fin.channels_guild.contains_key(
                        id,
                    ))
                &&& (st.guild_emojis.contains_key(guild_id) ==> forall|id: u64|
                    st.guild_emojis[guild_id].contains(id) ==> !fin.emojis.contains_key(id))
                &&& (st.guild_roles.contains_key(guild_id) ==> forall|id: u64|
                    st.guild_roles[guild_id].contains(id) ==> !fin.roles.contains_key(id))
                &&& (st.guild_members.contains_key(guild_id) ==> forall|u: u64| #[trigger]
                    st.guild_members[guild_id].contains(u) ==> (!fin.members.contains_key(
                        (guild_id, u),
                    ) && (fin.users.contains_key(u) ==> !fin.users[u].1.contains(guild_id))))
                &&& (forall|id: u64| #[trigger] fin.channels_guild.contains_key(id)
                    ==> st.channels_guild.contains_key(id) && fin.channels_guild[id]
                    == st.channels_guild[id])
                &&& (forall|id: u64| st.channels_guild.contains_key(id) && !(
                    st.guild_channels.contains_key(guild_id) && st.guild_channels[
                        guild_id
                    ].contains(id)) ==> #[trigger] fin.channels_guild.contains_key(id))
                &&& (forall|id: u64| #[trigger] fin.emojis.contains_key(id)
                    ==> st.emojis.contains_key(id) && fin.emojis[id] == st.emojis[id])
                &&& (forall|id: u64| st.emojis.contains_key(id) && !(
                    st.guild_emojis.contains_key(guild_id) && st.guild_emojis[
                        guild_id
                    ].contains(id)) ==> #[trigger] fin.emojis.contains_key(id))
                &&& (forall|id: u64| #[trigger] fin.roles.contains_key(id)
                    ==> st.roles.contains_key(id) && fin.roles[id] == st.roles[id])
                &&& (forall|id: u64| st.roles.contains_key(id) && !(
                    st.guild_roles.contains_key(guild_id) && st.guild_roles[guild_id].contains(
                        id,
                    )) ==> #[trigger] fin.roles.contains_key(id))
                &&& (forall|p: (u64, u64)| p.0 != guild_id ==> ((#[trigger]
                    fin.members.contains_key(p) <==> st.members.contains_key(p)) && (
                    st.members.contains_key(p) ==> fin.members[p] == st.members[p])))
                &&& (forall|u: u64| #[trigger] fin.users.contains_key(u)
                    ==> st.users.contains_key(u) && fin.users[u].0 == st.users[u].0 && (
                    fin.users[u].1 == st.users[u].1 || fin.users[u].1 == st.users[u].1.remove(
                        guild_id,
                    )))
                &&& (forall|u: u64| st.users.contains_key(u) && !(
                    st.guild_members.contains_key(guild_id) && st.guild_members[
                        guild_id
                    ].contains(u)) ==> #[trigger] fin.users.contains_key(u) && fin.users[u]
                    == st.users[u])
                &&& (forall|p: (u64, u64)| p.0 != guild_id ==> ((#[trigger]
                    fin.voice_states.contains_key(p) <==> st.voice_states.contains_key(p)) && (
                    st.voice_states.contains_key(p) ==> fin.voice_states[p] == st.voice_states[
                        p
                    ])))
                &&& (forall|d: u64| d != guild_id ==> ((#[trigger]
                    fin.guild_members.contains_key(d) <==> st.guild_members.contains_key(d))
                    && (st.guild_members.contains_key(d) ==> fin.guild_members[d]
                    == st.guild_members[d])))
                &&& (forall|d: u64| d != guild_id ==> ((#[trigger]
                    fin.guild_channels.contains_key(d) <==> st.guild_channels.contains_key(d))
                    && (st.guild_channels.contains_key(d) ==> fin.guild_channels[
                        d
                    ].subset_of(st.guild_channels[d]))))
                &&& (forall|d: u64| d != guild_id ==> ((#[trigger]
                    fin.guild_emojis.contains_key(d) <==> st.guild_emojis.contains_key(d)) && (
                    st.guild_emojis.contains_key(d) ==> fin.guild_emojis[d].subset_of(
                        st.guild_emojis[d],
                    ))))
                &&& (forall|d: u64| d != guild_id ==> ((#[trigger]
                    fin.guild_roles.contains_key(d) <==> st.guild_roles.contains_key(d)) && (
                    st.guild_roles.contains_key(d) ==> fin.guild_roles[d].subset_of(
                        st.guild_roles[d],
                    ))))
            }),
    {
        let chan_ids = match self.guild_channels.get(guild_id) {
            Some(s) => s.to_vec(),
            None => Vec::new(),
        };
        let emoji_ids = match self.guild_emojis.get(guild_id) {
            Some(s) => s.to_vec(),
            None => Vec::new(),
        };
        let role_ids = match self.guild_roles.get(guild_id) {
            Some(s) => s.to_vec(),
            None => Vec::new(),
        };
        let member_ids = match self.guild_members.get(guild_id) {
            Some(s) => s.to_vec(),
            None => Vec::new(),
        };
        let voice_ids = match self.voice_state_guilds.get(guild_id) {
            Some(s) => s.to_vec(),
            None => Vec::new(),
        };
        let ghost st = old(self).state();

        let mut i: usize = 0;
        while i < chan_ids.len()
            invariant
                self.wf(),
                self.spec_config() == old(self).spec_config(),
                i <= chan_ids@.len(),
                untouched_in_delete(st, self.state()),
                self.state().guilds == st.guilds,
                self.state().emojis == st.emojis,
                self.state().guild_emojis == st.guild_emojis,
                self.state().roles == st.roles,
                self.state().guild_roles == st.guild_roles,
                self.state().members == st.members,
                self.state().guild_members == st.guild_members,
                self.state().users == st.users,
                self.state().voice_states == st.voice_states,
                self.state().voice_state_guilds == st.voice_state_guilds,
                forall|j: int| 0 <= j < i ==> !self.state().channels_guild.contains_key(
                    #[trigger] chan_ids@[j],
                ),
                forall|id: u64| #[trigger] self.state().channels_guild.contains_key(id)
                    ==> st.channels_guild.contains_key(id) && self.state().channels_guild[id]
                    == st.channels_guild[id],
                forall|id: u64| st.channels_guild.contains_key(id) && !chan_ids@.contains(id)
                    ==> #[trigger] self.state().channels_guild.contains_key(id),
                forall|d: u64| (#[trigger] self.state().guild_channels.contains_key(d)
                    <==> st.guild_channels.contains_key(d)) && (st.guild_channels.contains_key(
                    d,
                ) ==> self.state().guild_channels[d].subset_of(st.guild_channels[d])),
            decreases chan_ids@.len() - i,
        {
            proof {
                assert(chan_ids@.contains(chan_ids@[i as int]));
            }
            let _ = self.delete_guild_channel(chan_ids[i]);
            i = i + 1;
        }

        let ghost st1 = self.state();
        proof {
            assert(forall|j: int| 0 <= j < chan_ids@.len() ==> !st1.channels_guild.contains_key(
                #[trigger] chan_ids@[j],
            ));
            assert(forall|id: u64| #[trigger] st1.channels_guild.contains_key(id)
                ==> st.channels_guild.contains_key(id) && st1.channels_guild[id]
                == st.channels_guild[id]);
            assert(forall|id: u64| st.channels_guild.contains_key(id) && !chan_ids@.contains(id)
                ==> #[trigger] st1.channels_guild.contains_key(id));
            assert(forall|d: u64| (#[trigger] st1.guild_channels.contains_key(d)
                <==> st.guild_channels.contains_key(d)) && (st.guild_channels.contains_key(d)
                ==> st1.guild_channels[d].subset_of(st.guild_channels[d])));
        }
        let mut i: usize = 0;
        while i < emoji_ids.len()
            invariant
                self.wf(),
                self.spec_config() == old(self).spec_config(),
                i <= emoji_ids@.len(),
                untouched_in_delete(st, self.state()),
                self.state().guilds == st.guilds,
                self.state().channels_guild == st1.channels_guild,
                self.state().guild_channels == st1.guild_channels,
                self.state().roles == st.roles,
                self.state().guild_roles == st.guild_roles,
                self.state().members == st.members,
                self.state().guild_members == st.guild_members,
                self.state().users == st.users,
                self.state().voice_states == st.voice_states,
                self.state().voice_state_guilds == st.voice_state_guilds,
                forall|j: int| 0 <= j < i ==> !self.state().emojis.contains_key(
                    #[trigger] emoji_ids@[j],
                ),
                forall|id: u64| #[trigger] self.state().emojis.contains_key(id)
                    ==> st.emojis.contains_key(id) && self.state().emojis[id] == st.emojis[id],
                forall|id: u64| st.emojis.contains_key(id) && !emoji_ids@.contains(id)
                    ==> #[trigger] self.state().emojis.contains_key(id),
                forall|d: u64| (#[trigger] self.state().guild_emojis.contains_key(d)
                    <==> st.guild_emojis.contains_key(d)) && (st.guild_emojis.contains_key(d)
                    ==> self.state().guild_emojis[d].subset_of(st.guild_emojis[d])),
            decreases emoji_ids@.len() - i,
        {
            proof {
                assert(emoji_ids@.contains(emoji_ids@[i as int]));
            }
            let _ = self.delete_emoji(emoji_ids[i]);
            i = i + 1;
        }

        let ghost st2 = self.state();
        proof {
            assert(forall|j: int| 0 <= j < emoji_ids@.len() ==> !st2.emojis.contains_key(
                #[trigger] emoji_ids@[j],
            ));
            assert(forall|id: u64| #[trigger] st2.emojis.contains_key(id)
                ==> st.emojis.contains_key(id) && st2.emojis[id] == st.emojis[id]);
            assert(forall|id: u64| st.emojis.contains_key(id) && !emoji_ids@.contains(id)
                ==> #[trigger] st2.emojis.contains_key(id));
            assert(forall|d: u64| (#[trigger] st2.guild_emojis.contains_key(d)
                <==> st.guild_emojis.contains_key(d)) && (st.guild_emojis.contains_key(d)
                ==> st2.guild_emojis[d].subset_of(st.guild_emojis[d])));
        }
        let mut i: usize = 0;
        while i < role_ids.len()
            invariant
                self.wf(),
                self.spec_config() == old(self).spec_config(),
                i <= role_ids@.len(),
                untouched_in_delete(st, self.state()),
                self.state().guilds == st.guilds,
                self.state().channels_guild == st1.channels_guild,
                self.state().guild_channels == st1.guild_channels,
                self.state().emojis == st2.emojis,
                self.state().guild_emojis == st2.guild_emojis,
                self.state().members == st.members,
                self.state().guild_members == st.guild_members,
                self.state().users == st.users,
                self.state().voice_states == st.voice_states,
                self.state().voice_state_guilds == st.voice_state_guilds,
                forall|j: int| 0 <= j < i ==> !self.state().roles.contains_key(
                    #[trigger] role_ids@[j],
                ),
                forall|id: u64| #[trigger] self.state().roles.contains_key(id)
                    ==> st.roles.contains_key(id) && self.state().roles[id] == st.roles[id],
                forall|id: u64| st.roles.contains_key(id) && !role_ids@.contains(id)
                    ==> #[trigger] self.state().roles.contains_key(id),
                forall|d: u64| (#[trigger] self.state().guild_roles.contains_key(d)
                    <==> st.guild_roles.contains_key(d)) && (st.guild_roles.contains_key(d)
                    ==> self.state().guild_roles[d].subset_of(st.guild_roles[d])),
            decreases role_ids@.len() - i,
        {
            proof {
                assert(role_ids@.contains(role_ids@[i as int]));
            }
            let _ = self.delete_role(role_ids[i]);
            i = i + 1;
        }

        let ghost st3 = self.state();
        proof {
            assert(forall|j: int| 0 <= j < role_ids@.len() ==> !st3.roles.contains_key(
                #[trigger] role_ids@[j],
            ));
            assert(forall|id: u64| #[trigger] st3.roles.contains_key(id)
                ==> st.roles.contains_key(id) && st3.roles[id] == st.roles[id]);
            assert(forall|id: u64| st.roles.contains_key(id) && !role_ids@.contains(id)
                ==> #[trigger] st3.roles.contains_key(id));
            assert(forall|d: u64| (#[trigger] st3.guild_roles.contains_key(d)
                <==> st.guild_roles.contains_key(d)) && (st.guild_roles.contains_key(d)
                ==> st3.guild_roles[d].subset_of(st.guild_roles[d])));
        }
        let mut i: usize = 0;
        while i < member_ids.len()
            invariant
                self.wf(),
                self.spec_config() == old(self).spec_config(),
                i <= member_ids@.len(),
                untouched_in_delete(st, self.state()),
                self.state().guilds == st.guilds,
                self.state().channels_guild == st1.channels_guild,
                self.state().guild_channels == st1.guild_channels,
                self.state().emojis == st2.emojis,
                self.state().guild_emojis == st2.guild_emojis,
                self.state().roles == st3.roles,
                self.state().guild_roles == st3.guild_roles,
                self.state().voice_states == st.voice_states,
                self.state().voice_state_guilds == st.voice_state_guilds,
                forall|j: int| 0 <= j < i ==> !self.state().members.contains_key(
                    (guild_id, #[trigger] member_ids@[j]),
                ),
                forall|j: int| 0 <= j < i ==> (self.state().users.contains_key(
                    #[trigger] member_ids@[j],
                ) ==> !self.state().users[member_ids@[j]].1.contains(guild_id)),
                forall|p: (u64, u64)| p.0 != guild_id ==> ((#[trigger]
                    self.state().members.contains_key(p) <==> st.members.contains_key(p)) && (
                    st.members.contains_key(p) ==> self.state().members[p] == st.members[p])),
                forall|p: (u64, u64)| #[trigger] self.state().members.contains_key(p)
                    ==> st.members.contains_key(p) && self.state().members[p] == st.members[p],
                forall|d: u64| d != guild_id ==> ((#[trigger]
                    self.state().guild_members.contains_key(d)
                    <==> st.guild_members.contains_key(d)) && (st.guild_members.contains_key(d)
                    ==> self.state().guild_members[d] == st.guild_members[d])),
                forall|u: u64| #[trigger] self.state().users.contains_key(u)
                    ==> st.users.contains_key(u) && self.state().users[u].0 == st.users[u].0
                    && (self.state().users[u].1 == st.users[u].1 || self.state().users[u].1
                    == st.users[u].1.remove(guild_id)),
                forall|u: u64| st.users.contains_key(u) && !member_ids@.contains(u)
                    ==> #[trigger] self.state().users.contains_key(u) && self.state().users[u]
                    == st.users[u],
            decreases member_ids@.len() - i,
        {
            proof {
                assert(member_ids@.contains(member_ids@[i as int]));
            }
            self.member_remove(guild_id, member_ids[i]);
            proof {
                let u0 = member_ids@[i as int];
                assert forall|j: int| 0 <= j < i + 1 implies (self.state().users.contains_key(
                    #[trigger] member_ids@[j],
                ) ==> !self.state().users[member_ids@[j]].1.contains(guild_id)) by {
                    let u = member_ids@[j];
                    if j < i {
                        if self.state().users.contains_key(u) {
                            if u == u0 {
                            }
                        }
                    }
                }
                assert(st.users.contains_key(u0) ==> st.users[u0].1.remove(guild_id).remove(
                    guild_id,
                ) =~= st.users[u0].1.remove(guild_id));
            }
            i = i + 1;
        }

        proof {
            assert forall|u: u64| #[trigger] self.state().voice_states.contains_key(
                (guild_id, u),
            ) implies exists|j: int| 0 <= j < voice_ids@.len() && voice_ids@[j] == u by {
                assert(st.voice_states.contains_key((guild_id, u)));
                assert(st.voice_state_guilds.contains_key(guild_id));
                assert(st.voice_state_guilds[guild_id].contains(u));
                assert(voice_ids@.contains(u));
                let j = choose|j: int| 0 <= j < voice_ids@.len() && voice_ids@[j] == u;
            }
        }
        let ghost st4 = self.state();
        proof {
            assert(forall|j: int| 0 <= j < member_ids@.len() ==> !st4.members.contains_key(
                (guild_id, #[trigger] member_ids@[j]),
            ));
            assert(forall|j: int| 0 <= j < member_ids@.len() ==> (st4.users.contains_key(
                #[trigger] member_ids@[j],
            ) ==> !st4.users[member_ids@[j]].1.contains(guild_id)));
            assert(forall|p: (u64, u64)| p.0 != guild_id ==> ((#[trigger]
                st4.members.contains_key(p) <==> st.members.contains_key(p)) && (
                st.members.contains_key(p) ==> st4.members[p] == st.members[p])));
            assert(forall|p: (u64, u64)| #[trigger] st4.members.contains_key(p)
                ==> st.members.contains_key(p) && st4.members[p] == st.members[p]);
            assert(forall|d: u64| d != guild_id ==> ((#[trigger]
                st4.guild_members.contains_key(d) <==> st.guild_members.contains_key(d)) && (
                st.guild_members.contains_key(d) ==> st4.guild_members[d]
                == st.guild_members[d])));
            assert forall|u: u64| #[trigger] st4.users.contains_key(u) implies
                st.users.contains_key(u) && st4.users[u].0 == st.users[u].0 && (
            st4.users[u].1 == st.users[u].1 || st4.users[u].1 == st.users[u].1.remove(
                guild_id,
            )) by {
                assert(self.state().users.contains_key(u));
            }
            assert forall|u: u64| st.users.contains_key(u) && !member_ids@.contains(
                u,
            ) implies #[trigger] st4.users.contains_key(u) && st4.users[u] == st.users[u] by {
                assert(self.state().users.contains_key(u) && self.state().users[u]
                    == st.users[u]);
            }
        }
        let mut i: usize = 0;
        while i < voice_ids.len()
            invariant
                self.wf(),
                self.spec_config() == old(self).spec_config(),
                i <= voice_ids@.len(),
                untouched_in_delete(st, self.state()),
                forall|j: int| 0 <= j < chan_ids@.len() ==> !st1.channels_guild.contains_key(
                    #[trigger] chan_ids@[j],
                ),
                forall|id: u64| #[trigger] st1.channels_guild.contains_key(id)
                    ==> st.channels_guild.contains_key(id) && st1.channels_guild[id]
                    == st.channels_guild[id],
                forall|id: u64| st.channels_guild.contains_key(id) && !chan_ids@.contains(id)
                    ==> #[trigger] st1.channels_guild.contains_key(id),
                forall|d: u64| (#[trigger] st1.guild_channels.contains_key(d)
                    <==> st.guild_channels.contains_key(d)) && (st.guild_channels.contains_key(
                    d,
                ) ==> st1.guild_channels[d].subset_of(st.guild_channels[d])),
                forall|j: int| 0 <= j < emoji_ids@.len() ==> !st2.emojis.contains_key(
                    #[trigger] emoji_ids@[j],
                ),
                forall|id: u64| #[trigger] st2.emojis.contains_key(id)
                    ==> st.emojis.contains_key(id) && st2.emojis[id] == st.emojis[id],
                forall|id: u64| st.emojis.contains_key(id) && !emoji_ids@.contains(id)
                    ==> #[trigger] st2.emojis.contains_key(id),
                forall|d: u64| (#[trigger] st2.guild_emojis.contains_key(d)
                    <==> st.guild_emojis.contains_key(d)) && (st.guild_emojis.contains_key(d)
                    ==> st2.guild_emojis[d].subset_of(st.guild_emojis[d])),
                forall|j: int| 0 <= j < role_ids@.len() ==> !st3.roles.contains_key(
                    #[trigger] role_ids@[j],
                ),
                forall|id: u64| #[trigger] st3.roles.contains_key(id)
                    ==> st.roles.contains_key(id) && st3.roles[id] == st.roles[id],
                forall|id: u64| st.roles.contains_key(id) && !role_ids@.contains(id)
                    ==> #[trigger] st3.roles.contains_key(id),
                forall|d: u64| (#[trigger] st3.guild_roles.contains_key(d)
                    <==> st.guild_roles.contains_key(d)) && (st.guild_roles.contains_key(d)
                    ==> st3.guild_roles[d].subset_of(st.guild_roles[d])),
                forall|j: int| 0 <= j < member_ids@.len() ==> !st4.members.contains_key(
                    (guild_id, #[trigger] member_ids@[j]),
                ),
                forall|j: int| 0 <= j < member_ids@.len() ==> (st4.users.contains_key(
                    #[trigger] member_ids@[j],
                ) ==> !st4.users[member_ids@[j]].1.contains(guild_id)),
                forall|p: (u64, u64)| p.0 != guild_id ==> ((#[trigger]
                    st4.members.contains_key(p) <==> st.members.contains_key(p)) && (
                    st.members.contains_key(p) ==> st4.members[p] == st.members[p])),
                forall|p: (u64, u64)| #[trigger] st4.members.contains_key(p)
                    ==> st.members.contains_key(p) && st4.members[p] == st.members[p],
                forall|d: u64| d != guild_id ==> ((#[trigger]
                    st4.guild_members.contains_key(d) <==> st.guild_members.contains_key(d))
                    && (st.guild_members.contains_key(d) ==> st4.guild_members[d]
                    == st.guild_members[d])),
                forall|u: u64| #[trigger] st4.users.contains_key(u)
                    ==> st.users.contains_key(u) && st4.users[u].0 == st.users[u].0 && (
                    st4.users[u].1 == st.users[u].1 || st4.users[u].1 == st.users[u].1.remove(
                        guild_id,
                    )),
                forall|u: u64| st.users.contains_key(u) && !member_ids@.contains(u)
                    ==> #[trigger] st4.users.contains_key(u) && st4.users[u] == st.users[u],
                self.state().guilds == st.guilds,
                self.state().channels_guild == st1.channels_guild,
                self.state().guild_channels == st1.guild_channels,
                self.state().emojis == st2.emojis,
                self.state().guild_emojis == st2.guild_emojis,
                self.state().roles == st3.roles,
                self.state().guild_roles == st3.guild_roles,
                self.state().members == st4.members,
                self.state().guild_members == st4.guild_members,
                self.state().users == st4.users,
                forall|u: u64| #[trigger] self.state().voice_states.contains_key(
                    (guild_id, u),
                ) ==> exists|j: int| i <= j < voice_ids@.len() && voice_ids@[j] == u,
                forall|p: (u64, u64)| p.0 != guild_id ==> ((#[trigger]
                    self.state().voice_states.contains_key(p)
                    <==> st.voice_states.contains_key(p)) && (st.voice_states.contains_key(p)
                    ==> self.state().voice_states[p] == st.voice_states[p])),
            decreases voice_ids@.len() - i,
        {
            let disconnect = VoiceState {
                guild_id: Some(guild_id),
                channel_id: None,
                user_id: voice_ids[i],
            };
            self.cache_voice_state(&disconnect);
            proof {
                assert forall|u: u64| #[trigger] self.state().voice_states.contains_key(
                    (guild_id, u),
                ) implies exists|j: int| i + 1 <= j < voice_ids@.len() && voice_ids@[j]
                    == u by {
                    let j = choose|j: int|
                        i <= j < voice_ids@.len() && voice_ids@[j] == u;
                    assert(u != voice_ids@[i as int]);
                    assert(j != i);
                }
            }
            i = i + 1;
        }

        let ghost pre_final = self.state();
        proof {
            assert(forall|u: u64| !pre_final.voice_states.contains_key((guild_id, u)));
            assert(forall|p: (u64, u64)| p.0 != guild_id ==> ((#[trigger]
                pre_final.voice_states.contains_key(p) <==> st.voice_states.contains_key(p))
                && (st.voice_states.contains_key(p) ==> pre_final.voice_states[p]
                == st.voice_states[p])));
            assert(untouched_in_delete(st, pre_final));
            assert(pre_final.guilds == st.guilds);
            assert(pre_final.channels_guild == st1.channels_guild);
            assert(pre_final.guild_channels == st1.guild_channels);
            assert(pre_final.emojis == st2.emojis);
            assert(pre_final.guild_emojis == st2.guild_emojis);
            assert(pre_final.roles == st3.roles);
            assert(pre_final.guild_roles == st3.guild_roles);
            assert(pre_final.members == st4.members);
            assert(pre_final.guild_members == st4.guild_members);
            assert(pre_final.users == st4.users);
        }
        let _ = self.guild_channels.remove(guild_id);
        let _ = self.guild_emojis.remove(guild_id);
        let _ = self.guild_members.remove(guild_id);
        let _ = self.guild_presences.remove(guild_id);
        let _ = self.guild_roles.remove(guild_id);
        let _ = self.guilds.remove(guild_id);
        proof {
            lemma_sets_of_remove(old(self).guild_channels@, guild_id);
            assert(self.state() =~= (CacheState {
                guild_channels: pre_final.guild_channels.remove(guild_id),
                guild_emojis: pre_final.guild_emojis.remove(guild_id),
                guild_members: pre_final.guild_members.remove(guild_id),
                guild_presences: pre_final.guild_presences.remove(guild_id),
                guild_roles: pre_final.guild_roles.remove(guild_id),
                guilds: pre_final.guilds.remove(guild_id),
                ..pre_final
            })) by {
                assert(sets_of(self.guild_channels@) =~= pre_final.guild_channels.remove(
                    guild_id,
                ));
                assert(sets_of(self.guild_emojis@) =~= pre_final.guild_emojis.remove(guild_id));
                assert(sets_of(self.guild_members@) =~= pre_final.guild_members.remove(guild_id));
                assert(sets_of(self.guild_presences@) =~= pre_final.guild_presences.remove(
                    guild_id,
                ));
                assert(sets_of(self.guild_roles@) =~= pre_final.guild_roles.remove(guild_id));
            }
            assert(voice_indices_consistent(self.state())) by {
                assert(self.state().voice_states == pre_final.voice_states);
                assert(self.state().voice_state_channels == pre_final.voice_state_channels);
                assert(self.state().voice_state_guilds == pre_final.voice_state_guilds);
            }
            assert(user_sets_nonempty(self.state())) by {
                assert forall|u: u64| #[trigger] self.state().users.contains_key(u) implies self
                    .state().users[u].1 != Set::<u64>::empty() by {
                    assert(pre_final.users.contains_key(u));
                    assert(pre_final.users[u].1 != Set::<u64>::empty());
                }
            }
            assert(!self.state().voice_state_guilds.contains_key(guild_id)) by {
                if self.state().voice_state_guilds.contains_key(guild_id) {
                    assert(pre_final.voice_state_guilds.contains_key(guild_id));
                    assert(guilds_index_of(pre_final.voice_states).contains_key(guild_id));
                    let u = choose|u: u64| #[trigger]
                        pre_final.voice_states.contains_key((guild_id, u));
                    assert(false);
                }
            }
            assert(self.state().guild_presences =~= st.guild_presences.remove(guild_id));
            assert forall|id: u64| st.guild_channels.contains_key(guild_id)
                && st.guild_channels[guild_id].contains(id) implies !self.state()
                .channels_guild.contains_key(id) by {
                assert(chan_ids@.contains(id));
                let j = choose|j: int| 0 <= j < chan_ids@.len() && chan_ids@[j] == id;
            }
            assert forall|id: u64| st.guild_emojis.contains_key(guild_id)
                && st.guild_emojis[guild_id].contains(id) implies !self.state()
                .emojis.contains_key(id) by {
                assert(emoji_ids@.contains(id));
                let j = choose|j: int| 0 <= j < emoji_ids@.len() && emoji_ids@[j] == id;
            }
            assert forall|id: u64| st.guild_roles.contains_key(guild_id)
                && st.guild_roles[guild_id].contains(id) implies !self.state()
                .roles.contains_key(id) by {
                assert(role_ids@.contains(id));
                let j = choose|j: int| 0 <= j < role_ids@.len() && role_ids@[j] == id;
            }
            assert forall|u: u64| st.guild_members.contains_key(guild_id)
                && st.guild_members[guild_id].contains(u) implies (!self.state()
                .members.contains_key((guild_id, u)) && (self.state().users.contains_key(u)
                ==> !self.state().users[u].1.contains(guild_id))) by {
                assert(member_ids@.contains(u));
                let j = choose|j: int| 0 <= j < member_ids@.len() && member_ids@[j] == u;
            }
            assert forall|id: u64| st.channels_guild.contains_key(id) && !(
                st.guild_channels.contains_key(guild_id) && st.guild_channels[
                    guild_id
                ].contains(id)) implies #[trigger] self.state().channels_guild.contains_key(
                id,
            ) by {
                assert(!chan_ids@.contains(id));
            }
            assert forall|id: u64| st.emojis.contains_key(id) && !(
                st.guild_emojis.contains_key(guild_id) && st.guild_emojis[guild_id].contains(
                    id,
                )) implies #[trigger] self.state().emojis.contains_key(id) by {
                assert(!emoji_ids@.contains(id));
            }
            assert forall|id: u64| st.roles.contains_key(id) && !(
                st.guild_roles.contains_key(guild_id) && st.guild_roles[guild_id].contains(id))
                implies #[trigger] self.state().roles.contains_key(id) by {
                assert(!role_ids@.contains(id));
            }
            assert(forall|u: u64| st.users.contains_key(u) && !member_ids@.contains(u)
                ==> #[trigger] st4.users.contains_key(u) && st4.users[u] == st.users[u]);
            assert forall|u: u64| st.users.contains_key(u) && !(
                st.guild_members.contains_key(guild_id) && st.guild_members[guild_id].contains(
                    u,
                )) implies #[trigger] self.state().users.contains_key(u) && self.state().users[
                u
            ] == st.users[u] by {
                assert(st.users.contains_key(u));
                assert(!member_ids@.contains(u));
                assert(st4.users.contains_key(u));
                assert(st4.users[u] == st.users[u]);
                assert(self.state().users == pre_final.users);
                assert(pre_final.users == st4.users);
            }
        }
    }
}


/// The cached form of a partial member reference, for the given shared
/// user record.
pub open spec fn cached_of_partial(m: PartialMember, g: u64, user: User) -> CachedMember {
    CachedMember {
        deaf: m.deaf,
        guild_id: g,
        joined_at: m.joined_at,
        mute: m.mute,
        nick: m.nick,
        pending: false,
        premium_since: None,
        roles: m.roles,
        user,
    }
}

/// How storing one partial member changes the cache state: the user id
/// always enters the guild's member index. A stored member already
/// reflecting the event is otherwise kept; any other is replaced.
pub open spec fn partial_member_apply(
    st: CacheState,
    g: u64,
    m: PartialMember,
    user: User,
) -> CacheState {
    if st.members.contains_key((g, user.id)) && st.members[(g, user.id)].matches_partial(
        &m,
        user.id,
    ) {
        CacheState { guild_members: index_add(st.guild_members, g, user.id), ..st }
    } else {
        CacheState {
            members: st.members.insert((g, user.id), cached_of_partial(m, g, user)),
            guild_members: index_add(st.guild_members, g, user.id),
            ..st
        }
    }
}

impl InMemoryCache {
    /// Stores a member carried by an event without its own user payload,
    /// against an already-shared user record. A stored member already
    /// reflecting the event is kept unchanged.
    pub fn cache_borrowed_partial_member(&mut self, guild_id: u64, member: PartialMember, user: User)
        requires
            old(self).wf(),
        ensures
            final(self).wf(),
            final(self).spec_config() == old(self).spec_config(),
            final(self).state() == partial_member_apply(old(self).state(), guild_id, member, user),
    {
        let user_id = user.id;
        let unchanged = match self.members.get(guild_id, user_id) {
            Some(m) => m.matches_partial_incoming(&member, user_id),
            None => false,
        };
        let mut set = match self.guild_members.remove(guild_id) {
            Some(s) => s,
            None => IdSet::new(),
        };
        set.insert(user_id);
        self.guild_members.insert(guild_id, set);
        proof {
            lemma_sets_of_remove(old(self).guild_members@, guild_id);
            lemma_sets_of_insert(old(self).guild_members@.remove(guild_id), guild_id, set);
            assert(sets_of(self.guild_members@) =~= index_add(
                old(self).state().guild_members,
                guild_id,
                user_id,
            ));
        }
        if unchanged {
            proof {
                assert(self.state() =~= partial_member_apply(
                    old(self).state(),
                    guild_id,
                    member,
                    user,
                ));
            }
            return ;
        }
        let PartialMember { deaf, joined_at, mute, nick, roles } = member;
        let cached = CachedMember {
            deaf,
            guild_id,
            joined_at,
            mute,
            nick,
            pending: false,
            premium_since: None,
            roles,
            user,
        };
        self.members.insert(guild_id, user_id, cached);
        proof {
            assert(self.state() =~= partial_member_apply(
                old(self).state(),
                guild_id,
                member,
                user,
            ));
        }
    }
}

/// The state of a cache with nothing stored.
pub open spec fn empty_state() -> CacheState {
    CacheState {
        channels_guild: Map::empty(),
        channels_private: Map::empty(),
        current_user: None,
        emojis: Map::empty(),
        groups: Map::empty(),
        guilds: Map::empty(),
        guild_channels: Map::empty(),
        guild_emojis: Map::empty(),
        guild_members: Map::empty(),
        guild_presences: Map::empty(),
        guild_roles: Map::empty(),
        members: Map::empty(),
        messages: Map::empty(),
        roles: Map::empty(),
        unavailable_guilds: Set::empty(),
        users: Map::empty(),
        voice_states: Map::empty(),
        voice_state_channels: Map::empty(),
        voice_state_guilds: Map::empty(),
    }
}

proof fn lemma_empty_projections()
    ensures
        sets_of(Map::empty()) == Map::<u64, Set<u64>>::empty(),
        pair_sets_of(Map::empty()) == Map::<u64, Set<(u64, u64)>>::empty(),
        users_of(Map::empty()) == Map::<u64, (User, Set<u64>)>::empty(),
        messages_of(Map::empty()) == Map::<u64, Seq<CachedMessage>>::empty(),
        channels_index_of(Map::empty()) == Map::<u64, Set<(u64, u64)>>::empty(),
        guilds_index_of(Map::empty()) == Map::<u64, Set<u64>>::empty(),
{
    assert(sets_of(Map::empty()) =~= Map::<u64, Set<u64>>::empty());
    assert(pair_sets_of(Map::empty()) =~= Map::<u64, Set<(u64, u64)>>::empty());
    assert(users_of(Map::empty()) =~= Map::<u64, (User, Set<u64>)>::empty());
    assert(messages_of(Map::empty()) =~= Map::<u64, Seq<CachedMessage>>::empty());
    assert(channels_index_of(Map::empty()) =~= Map::<u64, Set<(u64, u64)>>::empty());
    assert(guilds_index_of(Map::empty()) =~= Map::<u64, Set<u64>>::empty());
}

proof fn lemma_set_insert_nonempty(s: Set<u64>, g: u64)
    ensures
        s.insert(g) != Set::<u64>::empty(),
{
    assert(s.insert(g).contains(g));
    assert(!Set::<u64>::empty().contains(g));
}

} // verus!
