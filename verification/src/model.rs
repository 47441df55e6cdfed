//! Plain data models of the remote-platform entities that the cache stores.
//!
//! Every entity is identified by a 64-bit id. Value equality of entities is
//! spelled out per type as a spec function over views, with an executable
//! check proved against it; the cache uses those checks to guard updates so
//! that replacing an entity with an equal value is a no-op.

use vstd::prelude::*;

verus! {

/// Whether two optional strings hold the same text.
pub open spec fn opt_text_eq(a: Option<String>, b: Option<String>) -> bool {
    match (a, b) {
        (Option::None, Option::None) => true,
        (Option::Some(x), Option::Some(y)) => x@ == y@,
        _ => false,
    }
}

/// Compares two optional strings by text.
pub fn opt_string_equal(a: &Option<String>, b: &Option<String>) -> (r: bool)
    ensures
        r == opt_text_eq(*a, *b),
{
    match (a, b) {
        (Option::None, Option::None) => true,
        (Option::Some(x), Option::Some(y)) => *x == *y,
        _ => false,
    }
}

/// Compares two id lists element by element.
pub fn ids_equal(a: &Vec<u64>, b: &Vec<u64>) -> (r: bool)
    ensures
        r == (a@ == b@),
{
    if a.len() != b.len() {
        proof {
            assert(a@.len() != b@.len());
        }
        return false;
    }
    let mut i: usize = 0;
    while i < a.len()
        invariant
            a@.len() == b@.len(),
            i <= a@.len(),
            forall|j: int| 0 <= j < i ==> a@[j] == b@[j],
        decreases a@.len() - i,
    {
        if a[i] != b[i] {
            return false;
        }
        i = i + 1;
    }
    proof {
        assert(a@ =~= b@);
    }
    true
}

/// Duplicates a byte list, preserving the elements exactly.
pub fn copy_bytes(a: &Vec<u8>) -> (r: Vec<u8>)
    ensures
        r@ == a@,
{
    let mut out: Vec<u8> = Vec::new();
    let mut i: usize = 0;
    while i < a.len()
        invariant
            i <= a@.len(),
            out@ =~= a@.take(i as int),
        decreases a@.len() - i,
    {
        out.push(a[i]);
        proof {
            assert(out@ =~= a@.take(i + 1));
        }
        i = i + 1;
    }
    proof {
        assert(out@ =~= a@);
    }
    out
}

/// A user account, globally unique by id.
#[derive(PartialEq, Debug)]
pub struct User {
    pub id: u64,
    pub name: String,
    pub discriminator: String,
    pub bot: bool,
}

impl User {
    /// Value equality: same id, text fields and flags.
    pub open spec fn eq_val(&self, other: &User) -> bool {
        &&& self.id == other.id
        &&& self.name@ == other.name@
        &&& self.discriminator@ == other.discriminator@
        &&& self.bot == other.bot
    }

    /// Compares two users by value.
    pub fn value_eq(&self, other: &User) -> (r: bool)
        ensures
            r == self.eq_val(other),
    {
        self.id == other.id && self.name == other.name && self.discriminator
            == other.discriminator && self.bot == other.bot
    }

    /// Duplicates the user, preserving the value exactly.
    pub fn copy_value(&self) -> (r: User)
        ensures
            r == *self,
    {
        User {
            id: self.id,
            name: self.name.clone(),
            discriminator: self.discriminator.clone(),
            bot: self.bot,
        }
    }
}

/// The account that owns the cache. At most one is ever stored.
#[derive(PartialEq, Debug)]
pub struct CurrentUser {
    pub id: u64,
    pub name: String,
    pub discriminator: String,
    pub bot: bool,
    pub mfa_enabled: bool,
}

/// The kind of a guild channel.
#[derive(Copy, Clone, PartialEq, Eq, Structural, Debug)]
pub enum ChannelKind {
    Category,
    Text,
    Voice,
}

/// A guild-scoped channel. Channels can arrive without their owning guild's
/// id; the cache attaches it when the channel is stored.
#[derive(PartialEq, Debug)]
pub struct GuildChannel {
    pub id: u64,
    pub guild_id: Option<u64>,
    pub kind: ChannelKind,
    pub name: String,
}

impl GuildChannel {
    /// Value equality: same id, guild attachment, kind and name.
    pub open spec fn eq_val(&self, other: &GuildChannel) -> bool {
        &&& self.id == other.id
        &&& self.guild_id == other.guild_id
        &&& self.kind == other.kind
        &&& self.name@ == other.name@
    }

    /// Duplicates the channel, preserving the value exactly.
    pub fn copy_value(&self) -> (r: GuildChannel)
        ensures
            r == *self,
    {
        GuildChannel {
            id: self.id,
            guild_id: self.guild_id,
            kind: self.kind,
            name: self.name.clone(),
        }
    }

    /// Compares two guild channels by value.
    pub fn value_eq(&self, other: &GuildChannel) -> (r: bool)
        ensures
            r == self.eq_val(other),
    {
        let guild_match = match (self.guild_id, other.guild_id) {
            (Option::None, Option::None) => true,
            (Option::Some(x), Option::Some(y)) => x == y,
            _ => false,
        };
        self.id == other.id && guild_match && self.kind == other.kind && self.name == other.name
    }
}

/// A channel of a private conversation; never guild-scoped.
#[derive(PartialEq, Debug)]
pub struct PrivateChannel {
    pub id: u64,
    pub last_message_id: Option<u64>,
}

impl PrivateChannel {
    /// Value equality on all fields.
    pub open spec fn eq_val(&self, other: &PrivateChannel) -> bool {
        &&& self.id == other.id
        &&& self.last_message_id == other.last_message_id
    }

    /// Compares two private channels by value.
    pub fn value_eq(&self, other: &PrivateChannel) -> (r: bool)
        ensures
            r == self.eq_val(other),
    {
        let last_match = match (self.last_message_id, other.last_message_id) {
            (Option::None, Option::None) => true,
            (Option::Some(x), Option::Some(y)) => x == y,
            _ => false,
        };
        self.id == other.id && last_match
    }
}

/// A group conversation.
#[derive(PartialEq, Debug)]
pub struct Group {
    pub id: u64,
    pub name: Option<String>,
    pub owner_id: u64,
}

impl Group {
    /// Value equality: same id, name text and owner.
    pub open spec fn eq_val(&self, other: &Group) -> bool {
        &&& self.id == other.id
        &&& opt_text_eq(self.name, other.name)
        &&& self.owner_id == other.owner_id
    }

    /// Compares two groups by value.
    pub fn value_eq(&self, other: &Group) -> (r: bool)
        ensures
            r == self.eq_val(other),
    {
        self.id == other.id && opt_string_equal(&self.name, &other.name) && self.owner_id
            == other.owner_id
    }
}

/// A guild emoji as delivered by an inbound event.
#[derive(PartialEq, Debug)]
pub struct Emoji {
    pub id: u64,
    pub animated: bool,
    pub available: bool,
    pub managed: bool,
    pub name: String,
    pub require_colons: bool,
    pub roles: Vec<u64>,
    pub user: Option<User>,
}

/// The cached form of a guild emoji: the uploading user is referenced by id,
/// the user record itself is kept in the shared user store.
#[derive(PartialEq, Debug)]
pub struct CachedEmoji {
    pub id: u64,
    pub animated: bool,
    pub available: bool,
    pub managed: bool,
    pub name: String,
    pub require_colons: bool,
    pub roles: Vec<u64>,
    pub user_id: Option<u64>,
}

impl CachedEmoji {
    /// Whether this cached emoji already reflects an incoming emoji value.
    pub open spec fn matches(&self, e: &Emoji) -> bool {
        &&& self.id == e.id
        &&& self.animated == e.animated
        &&& self.available == e.available
        &&& self.managed == e.managed
        &&& self.name@ == e.name@
        &&& self.require_colons == e.require_colons
        &&& self.roles@ == e.roles@
        &&& self.user_id == match e.user {
            Option::Some(u) => Option::Some(u.id),
            Option::None => Option::None::<u64>,
        }
    }

    /// Checks whether this cached emoji already reflects an incoming value.
    pub fn matches_incoming(&self, e: &Emoji) -> (r: bool)
        ensures
            r == self.matches(e),
    {
        let user_match = match (&self.user_id, &e.user) {
            (Option::None, Option::None) => true,
            (Option::Some(x), Option::Some(u)) => *x == u.id,
            _ => false,
        };
        self.id == e.id && self.animated == e.animated && self.available == e.available
            && self.managed == e.managed && self.name == e.name && self.require_colons
            == e.require_colons && ids_equal(&self.roles, &e.roles) && user_match
    }
}

/// A guild role.
#[derive(PartialEq, Debug)]
pub struct Role {
    pub id: u64,
    pub name: String,
    pub color: u32,
    pub hoist: bool,
    pub managed: bool,
    pub mentionable: bool,
    pub permissions: u64,
    pub position: i64,
}

impl Role {
    /// Value equality on all fields.
    pub open spec fn eq_val(&self, other: &Role) -> bool {
        &&& self.id == other.id
        &&& self.name@ == other.name@
        &&& self.color == other.color
        &&& self.hoist == other.hoist
        &&& self.managed == other.managed
        &&& self.mentionable == other.mentionable
        &&& self.permissions == other.permissions
        &&& self.position == other.position
    }

    /// Duplicates the role, preserving the value exactly.
    pub fn copy_value(&self) -> (r: Role)
        ensures
            r == *self,
    {
        Role {
            id: self.id,
            name: self.name.clone(),
            color: self.color,
            hoist: self.hoist,
            managed: self.managed,
            mentionable: self.mentionable,
            permissions: self.permissions,
            position: self.position,
        }
    }

    /// Compares two roles by value.
    pub fn value_eq(&self, other: &Role) -> (r: bool)
        ensures
            r == self.eq_val(other),
    {
        self.id == other.id && self.name == other.name && self.color == other.color && self.hoist
            == other.hoist && self.managed == other.managed && self.mentionable
            == other.mentionable && self.permissions == other.permissions && self.position
            == other.position
    }
}

/// A guild as delivered by a guild-create event, with the child collections
/// that the cache spreads over its stores.
#[derive(PartialEq, Debug)]
pub struct Guild {
    pub id: u64,
    pub description: Option<String>,
    pub features: Vec<String>,
    pub icon: Option<String>,
    pub member_count: Option<u64>,
    pub owner_id: u64,
    pub premium_subscription_count: Option<u64>,
    pub premium_tier: u64,
    pub unavailable: bool,
    pub vanity_url_code: Option<String>,
    pub channels: Vec<GuildChannel>,
    pub emojis: Vec<Emoji>,
    pub members: Vec<Member>,
    pub presences: Vec<Presence>,
    pub roles: Vec<Role>,
    pub voice_states: Vec<VoiceState>,
}

/// The cached summary of a guild: the child collections are indexed
/// separately, only their owning guild id ties them back.
#[derive(PartialEq, Debug)]
pub struct CachedGuild {
    pub id: u64,
    pub description: Option<String>,
    pub features: Vec<String>,
    pub icon: Option<String>,
    pub member_count: Option<u64>,
    pub owner_id: u64,
    pub premium_subscription_count: Option<u64>,
    pub premium_tier: u64,
    pub unavailable: bool,
    pub vanity_url_code: Option<String>,
}

/// A guild member as delivered by an inbound event.
#[derive(PartialEq, Debug)]
pub struct Member {
    pub deaf: bool,
    pub guild_id: u64,
    pub joined_at: Option<String>,
    pub mute: bool,
    pub nick: Option<String>,
    pub pending: bool,
    pub premium_since: Option<String>,
    pub roles: Vec<u64>,
    pub user: User,
}

/// A member reference without its own user payload, as carried by some
/// events.
#[derive(PartialEq, Debug)]
pub struct PartialMember {
    pub deaf: bool,
    pub joined_at: Option<String>,
    pub mute: bool,
    pub nick: Option<String>,
    pub roles: Vec<u64>,
}

/// The cached form of a guild member.
#[derive(PartialEq, Debug)]
pub struct CachedMember {
    pub deaf: bool,
    pub guild_id: u64,
    pub joined_at: Option<String>,
    pub mute: bool,
    pub nick: Option<String>,
    pub pending: bool,
    pub premium_since: Option<String>,
    pub roles: Vec<u64>,
    pub user: User,
}

impl CachedMember {
    /// Whether this cached member already reflects an incoming member value.
    pub open spec fn matches(&self, m: &Member) -> bool {
        &&& self.deaf == m.deaf
        &&& self.guild_id == m.guild_id
        &&& opt_text_eq(self.joined_at, m.joined_at)
        &&& self.mute == m.mute
        &&& opt_text_eq(self.nick, m.nick)
        &&& self.pending == m.pending
        &&& opt_text_eq(self.premium_since, m.premium_since)
        &&& self.roles@ == m.roles@
        &&& self.user.eq_val(&m.user)
    }

    /// Checks whether this cached member already reflects an incoming value.
    pub fn matches_incoming(&self, m: &Member) -> (r: bool)
        ensures
            r == self.matches(m),
    {
        self.deaf == m.deaf && self.guild_id == m.guild_id && opt_string_equal(
            &self.joined_at,
            &m.joined_at,
        ) && self.mute == m.mute && opt_string_equal(&self.nick, &m.nick) && self.pending
            == m.pending && opt_string_equal(&self.premium_since, &m.premium_since) && ids_equal(
            &self.roles,
            &m.roles,
        ) && self.user.value_eq(&m.user)
    }

    /// Whether this cached member already reflects a partial member carried
    /// by an event for the given user.
    pub open spec fn matches_partial(&self, m: &PartialMember, user_id: u64) -> bool {
        &&& self.deaf == m.deaf
        &&& opt_text_eq(self.joined_at, m.joined_at)
        &&& self.mute == m.mute
        &&& opt_text_eq(self.nick, m.nick)
        &&& self.roles@ == m.roles@
        &&& self.user.id == user_id
    }

    /// Checks whether this cached member already reflects a partial member.
    pub fn matches_partial_incoming(&self, m: &PartialMember, user_id: u64) -> (r: bool)
        ensures
            r == self.matches_partial(m, user_id),
    {
        self.deaf == m.deaf && opt_string_equal(&self.joined_at, &m.joined_at) && self.mute
            == m.mute && opt_string_equal(&self.nick, &m.nick) && ids_equal(&self.roles, &m.roles)
            && self.user.id == user_id
    }
}

/// A user's presence status within a guild. Only `Online` affects the cache.
#[derive(Copy, Clone, PartialEq, Eq, Structural, Debug)]
pub enum Status {
    Online,
    Idle,
    DoNotDisturb,
    Offline,
}

/// The user a presence event speaks of: a full record or a bare id.
#[derive(PartialEq, Debug)]
pub enum UserOrId {
    User(User),
    UserId { id: u64 },
}

/// The id that a presence event speaks of.
pub open spec fn spec_presence_user_id(user: &UserOrId) -> u64 {
    match user {
        UserOrId::User(u) => u.id,
        UserOrId::UserId { id } => *id,
    }
}

/// A presence event: a user's status within one guild.
#[derive(PartialEq, Debug)]
pub struct Presence {
    pub user: UserOrId,
    pub status: Status,
}

/// A voice-state event: which voice channel, if any, a user occupies within
/// a guild. An absent channel id means the user disconnected.
#[derive(Clone, PartialEq, Debug)]
pub struct VoiceState {
    pub channel_id: Option<u64>,
    pub guild_id: Option<u64>,
    pub user_id: u64,
}

/// The cached snapshot of a message.
#[derive(PartialEq, Debug)]
pub struct CachedMessage {
    pub id: u64,
    pub channel_id: u64,
    pub guild_id: Option<u64>,
    pub author_id: u64,
    pub content: String,
}

/// The permission bit that grants every other permission.
pub const ADMINISTRATOR: u64 = 0x8;

/// The full permission set, granted to guild owners and administrators.
pub const ALL_PERMISSIONS: u64 = 0xffff_ffff_ffff_ffff;

} // verus!
