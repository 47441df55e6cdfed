use hourai_cache::cache::InMemoryCache;
use hourai_cache::model::{ChannelKind, CurrentUser, Emoji, Guild, GuildChannel, Member, Role,
    User, VoiceState};
use hourai_cache::model::{Group, Presence, PrivateChannel, Status, UserOrId};
use hourai_cache::updates::{GuildEmojisUpdate, MemberRemove, PresenceUpdate, RoleDelete,
    VoiceStateUpdate};

fn current_user(id: u64) -> CurrentUser {
    CurrentUser {
        id,
        name: "test".to_owned(),
        discriminator: "9876".to_owned(),
        bot: true,
        mfa_enabled: true,
    }
}

fn emoji(id: u64, user: Option<User>) -> Emoji {
    Emoji {
        id,
        animated: false,
        available: true,
        managed: false,
        name: "test".to_owned(),
        require_colons: true,
        roles: Vec::new(),
        user,
    }
}

fn member(id: u64, guild_id: u64) -> Member {
    Member {
        deaf: false,
        guild_id,
        joined_at: None,
        mute: false,
        nick: None,
        pending: false,
        premium_since: None,
        roles: Vec::new(),
        user: user(id),
    }
}

fn role(id: u64) -> Role {
    Role {
        id,
        name: "test".to_owned(),
        color: 0,
        hoist: false,
        managed: false,
        mentionable: false,
        permissions: 0,
        position: 0,
    }
}

fn user(id: u64) -> User {
    User { id, name: "user".to_owned(), discriminator: "0001".to_owned(), bot: false }
}

fn voice_state(guild_id: u64, channel_id: Option<u64>, user_id: u64) -> VoiceState {
    VoiceState { channel_id, guild_id: Some(guild_id), user_id }
}

#[test]
fn test_current_user_retrieval() {
    let mut cache = InMemoryCache::new();
    assert!(cache.current_user().is_none());
    cache.cache_current_user(current_user(1));
    assert!(cache.current_user().is_some());
}

#[test]
fn test_guild_create_channels_have_guild_ids() {
    let mut channels = Vec::new();
    channels.push(GuildChannel {
        id: 111,
        guild_id: None,
        kind: ChannelKind::Text,
        name: "guild channel with no guild id".to_owned(),
    });

    let guild = Guild {
        id: 123,
        description: None,
        features: Vec::new(),
        icon: None,
        member_count: Some(25),
        owner_id: 456,
        premium_subscription_count: Some(0),
        premium_tier: 0,
        unavailable: false,
        vanity_url_code: None,
        channels,
        emojis: Vec::new(),
        members: Vec::new(),
        presences: Vec::new(),
        roles: Vec::new(),
        voice_states: Vec::new(),
    };

    let mut cache = InMemoryCache::new();
    cache.cache_guild(guild);

    let channel = cache.guild_channel(111).unwrap();

    // The channel was given to the cache without a guild id, but because
    // it arrived in a guild create, the cache attaches the guild's id.
    assert_eq!(Some(123), channel.guild_id);
    // The created guild is available.
    assert_eq!(false, cache.guild(123).unwrap().unavailable);
}

#[test]
fn test_syntax_update() {
    let mut cache = InMemoryCache::new();
    cache.update(RoleDelete { guild_id: 0, role_id: 1 });
}

#[test]
fn test_cache_user_guild_state() {
    let user_id = 2u64;
    let mut cache = InMemoryCache::new();
    cache.cache_user(user(user_id), Some(1));

    // The guild's id is the only one in the user's set of guilds.
    {
        let guilds = cache.user_guilds(user_id).unwrap();
        assert!(guilds.contains(&1));
        assert_eq!(1, guilds.len());
    }

    // A second guild makes two in the set.
    cache.cache_user(user(user_id), Some(3));

    {
        let guilds = cache.user_guilds(user_id).unwrap();
        assert!(guilds.contains(&3));
        assert_eq!(2, guilds.len());
    }

    // Removing the user from a guild removes that id from the set,
    // leaving the other one.
    cache.update(MemberRemove { guild_id: 3, user: user(user_id) });

    {
        let guilds = cache.user_guilds(user_id).unwrap();
        assert!(!guilds.contains(&3));
        assert_eq!(1, guilds.len());
    }

    // Removing the user from its last guild removes the user's entry.
    cache.update(MemberRemove { guild_id: 1, user: user(user_id) });
    assert!(cache.user(user_id).is_none());
}

#[test]
fn test_voice_state_inserts_and_removes() {
    let mut cache = InMemoryCache::new();

    // Note: channel ids are `<guildid><idx>` where idx is the index of the
    // channel id, to prevent channel id collisions between guilds. The
    // other two ids cannot overlap.

    // User 1 joins guild 1's channel 11 (1 channel, 1 guild).
    {
        let (guild_id, channel_id, user_id) = (1u64, 11u64, 1u64);
        cache.cache_voice_state(&voice_state(guild_id, Some(channel_id), user_id));

        assert!(cache.voice_state(guild_id, user_id).is_some());
        assert_eq!(1, cache.voice_states_count());

        assert!(cache.voice_channel_states(channel_id).is_some());
        assert_eq!(1, cache.voice_channels_count());

        assert!(cache.voice_guild_users(guild_id).is_some());
        assert_eq!(1, cache.voice_guilds_count());
    }

    // User 2 joins guild 2's channel 21 (2 channels, 2 guilds).
    {
        let (guild_id, channel_id, user_id) = (2u64, 21u64, 2u64);
        cache.cache_voice_state(&voice_state(guild_id, Some(channel_id), user_id));

        assert!(cache.voice_state(guild_id, user_id).is_some());
        assert_eq!(2, cache.voice_states_count());

        assert!(cache.voice_channel_states(channel_id).is_some());
        assert_eq!(2, cache.voice_channels_count());

        assert!(cache.voice_guild_users(guild_id).is_some());
        assert_eq!(2, cache.voice_guilds_count());
    }

    // User 3 joins guild 1's channel 12 (3 channels, 2 guilds).
    {
        let (guild_id, channel_id, user_id) = (1u64, 12u64, 3u64);
        cache.cache_voice_state(&voice_state(guild_id, Some(channel_id), user_id));

        assert!(cache.voice_state(guild_id, user_id).is_some());
        assert_eq!(3, cache.voice_states_count());

        assert!(cache.voice_channel_states(channel_id).is_some());
        assert_eq!(3, cache.voice_channels_count());

        // The guild was already indexed, so no new guild entry appears.
        assert!(cache.voice_guild_users(guild_id).is_some());
        assert_eq!(2, cache.voice_guilds_count());
    }

    // User 3 moves to guild 1's channel 11 (2 channels, 2 guilds).
    {
        let (guild_id, channel_id, user_id) = (1u64, 11u64, 3u64);
        cache.cache_voice_state(&voice_state(guild_id, Some(channel_id), user_id));

        assert!(cache.voice_state(guild_id, user_id).is_some());
        // A move does not change the number of voice states.
        assert_eq!(3, cache.voice_states_count());

        assert!(cache.voice_channel_states(channel_id).is_some());
        // The old channel lost its last occupant and leaves the index.
        assert_eq!(2, cache.voice_channels_count());

        assert!(cache.voice_guild_users(guild_id).is_some());
        assert_eq!(2, cache.voice_guilds_count());
    }

    // User 3 disconnects (2 channels, 2 guilds).
    {
        let (guild_id, channel_id, user_id) = (1u64, 11u64, 3u64);
        cache.cache_voice_state(&voice_state(guild_id, None, user_id));

        assert!(cache.voice_state(guild_id, user_id).is_none());
        assert_eq!(2, cache.voice_states_count());

        // They were not alone in their channel or guild, so neither
        // mapping disappears.
        assert!(cache.voice_channel_states(channel_id).is_some());
        assert!(cache.voice_guild_users(guild_id).is_some());
        assert_eq!(2, cache.voice_guilds_count());
    }

    // User 2 disconnects (1 channel, 1 guild).
    {
        let (guild_id, channel_id, user_id) = (2u64, 21u64, 2u64);
        cache.cache_voice_state(&voice_state(guild_id, None, user_id));

        assert!(cache.voice_state(guild_id, user_id).is_none());
        assert_eq!(1, cache.voice_states_count());

        // They were the last in their channel and their guild, so both
        // mappings disappear.
        assert!(cache.voice_channel_states(channel_id).is_none());
        assert_eq!(1, cache.voice_channels_count());

        assert!(cache.voice_guild_users(guild_id).is_none());
        assert_eq!(1, cache.voice_guilds_count());
    }

    // User 1 disconnects (0 channels, 0 guilds).
    {
        let (guild_id, _channel_id, user_id) = (1u64, 11u64, 1u64);
        cache.cache_voice_state(&voice_state(guild_id, None, user_id));

        assert_eq!(0, cache.voice_states_count());
        assert_eq!(0, cache.voice_channels_count());
        assert_eq!(0, cache.voice_guilds_count());
    }
}

#[test]
fn test_voice_states() {
    let mut cache = InMemoryCache::new();
    cache.cache_voice_state(&voice_state(1, Some(2), 3));
    cache.cache_voice_state(&voice_state(1, Some(2), 4));

    // Returns both voice states for the channel that exists.
    assert_eq!(2, cache.voice_channel_states(2).unwrap().len());

    // Returns None if the channel does not exist.
    assert!(cache.voice_channel_states(0).is_none());
}

#[test]
fn test_cache_role() {
    let mut cache = InMemoryCache::new();

    // Single inserts.
    {
        let guild_1_role_ids: Vec<u64> = (1..=10).collect();
        let guild_1_roles: Vec<Role> = guild_1_role_ids.iter().copied().map(role).collect();
        for r in guild_1_roles.iter() {
            cache.cache_role(
                1,
                Role {
                    id: r.id,
                    name: r.name.clone(),
                    color: r.color,
                    hoist: r.hoist,
                    managed: r.managed,
                    mentionable: r.mentionable,
                    permissions: r.permissions,
                    position: r.position,
                },
            );
        }

        let cached_roles = cache.guild_roles(1).unwrap();
        assert_eq!(cached_roles.len(), guild_1_role_ids.len());
        assert!(guild_1_role_ids.iter().all(|id| cached_roles.contains(id)));

        assert!(guild_1_roles
            .iter()
            .all(|r| *cache.role(r.id).expect("Role missing from cache") == *r));
    }

    // Bulk inserts.
    {
        let guild_2_role_ids: Vec<u64> = (101..=110).collect();
        let guild_2_roles: Vec<Role> = guild_2_role_ids.iter().copied().map(role).collect();
        cache.cache_roles(2, &guild_2_roles);

        let cached_roles = cache.guild_roles(2).unwrap();
        assert_eq!(cached_roles.len(), guild_2_role_ids.len());
        assert!(guild_2_role_ids.iter().all(|id| cached_roles.contains(id)));

        assert!(guild_2_roles
            .iter()
            .all(|r| *cache.role(r.id).expect("Role missing from cache") == *r));
    }
}

#[test]
fn test_cache_guild_member() {
    let mut cache = InMemoryCache::new();

    // Single inserts.
    {
        let guild_1_user_ids: Vec<u64> = (1..=10).collect();
        for id in guild_1_user_ids.iter() {
            cache.cache_member(1, member(*id, 1));
        }

        let cached_members = cache.guild_members(1).unwrap();
        assert_eq!(cached_members.len(), guild_1_user_ids.len());
        assert!(guild_1_user_ids.iter().all(|id| cached_members.contains(id)));

        assert!(guild_1_user_ids.iter().all(|id| cache.member(1, *id).is_some()));

        assert!(guild_1_user_ids.iter().all(|id| cache.user(*id).is_some()));
    }

    // Bulk inserts.
    {
        let guild_2_user_ids: Vec<u64> = (1..=10).collect();
        let guild_2_members: Vec<Member> =
            guild_2_user_ids.iter().copied().map(|id| member(id, 2)).collect();
        cache.cache_members(2, guild_2_members);

        let cached_members = cache.guild_members(1).unwrap();
        assert_eq!(cached_members.len(), guild_2_user_ids.len());
        assert!(guild_2_user_ids.iter().all(|id| cached_members.contains(id)));

        assert!(guild_2_user_ids.iter().copied().all(|id| cache.member(1, id).is_some()));

        assert!(guild_2_user_ids.iter().all(|id| cache.user(*id).is_some()));
    }
}

#[test]
fn test_cache_emoji() {
    let mut cache = InMemoryCache::new();

    // The user to do some of the inserts.
    fn user_mod(id: u64) -> Option<User> {
        if id % 2 == 0 {
            // Only use a user for half.
            Some(user(1))
        } else {
            None
        }
    }

    // Single inserts.
    {
        let guild_1_emoji_ids: Vec<u64> = (1..=10).collect();

        for id in guild_1_emoji_ids.iter().copied() {
            cache.cache_emoji(1, emoji(id, user_mod(id)));
        }

        for id in guild_1_emoji_ids.iter().copied() {
            assert!(cache.emoji(id).is_some());
        }

        // The emoji must also land in the per-guild lookup map.
        let guild_emojis = cache.guild_emojis(1);
        assert!(guild_emojis.is_some());
        let guild_emojis = guild_emojis.unwrap();

        assert_eq!(guild_1_emoji_ids.len(), guild_emojis.len());
        assert!(guild_1_emoji_ids.iter().all(|id| guild_emojis.contains(id)));
    }

    // Bulk inserts.
    {
        let guild_2_emoji_ids: Vec<u64> = (11..=20).collect();
        let guild_2_emojis: Vec<Emoji> =
            guild_2_emoji_ids.iter().copied().map(|id| emoji(id, user_mod(id))).collect();
        cache.cache_emojis(2, guild_2_emojis);

        for id in guild_2_emoji_ids.iter().copied() {
            assert!(cache.emoji(id).is_some());
        }

        let guild_emojis = cache.guild_emojis(2);

        assert!(guild_emojis.is_some());
        let guild_emojis = guild_emojis.unwrap();
        assert_eq!(guild_2_emoji_ids.len(), guild_emojis.len());
        assert!(guild_2_emoji_ids.iter().all(|id| guild_emojis.contains(id)));
    }
}

#[test]
fn test_clear() {
    let mut cache = InMemoryCache::new();
    cache.cache_emoji(1, emoji(3, None));
    cache.cache_member(2, member(4, 2));
    cache.clear();
    assert_eq!(0, cache.emojis_count());
    assert_eq!(0, cache.members_count());
}

#[test]
fn test_emoji_removal() {
    let mut cache = InMemoryCache::new();

    let guild_id = 1u64;

    cache.cache_emoji(guild_id, emoji(1, None));
    cache.cache_emoji(guild_id, emoji(2, None));
    cache.cache_emoji(guild_id, emoji(3, None));

    cache.update(GuildEmojisUpdate { emojis: vec![emoji(1, None), emoji(3, None)], guild_id });

    assert_eq!(cache.emojis_count(), 2);
    assert_eq!(cache.guild_emojis(guild_id).unwrap().len(), 2);
    assert!(cache.emoji(1).is_some());
    assert!(cache.emoji(2).is_none());
    assert!(cache.emoji(3).is_some());

    cache.update(GuildEmojisUpdate { emojis: vec![emoji(1, None)], guild_id });

    assert_eq!(cache.emojis_count(), 1);
    assert_eq!(cache.guild_emojis(guild_id).unwrap().len(), 1);
    assert!(cache.emoji(1).is_some());
    assert!(cache.emoji(2).is_none());

    cache.update(GuildEmojisUpdate { emojis: vec![emoji(4, None)], guild_id });

    assert_eq!(cache.emojis_count(), 1);
    assert_eq!(cache.guild_emojis(guild_id).unwrap().len(), 1);
    assert!(cache.emoji(4).is_some());
    assert!(cache.emoji(1).is_none());

    cache.update(GuildEmojisUpdate { emojis: vec![], guild_id });

    assert_eq!(cache.emojis_count(), 0);
    assert!(cache.guild_emojis(guild_id).unwrap().is_empty());
}

#[test]
fn test_guild_delete_cascades() {
    let mut cache = InMemoryCache::new();
    let guild = Guild {
        id: 9,
        description: None,
        features: Vec::new(),
        icon: None,
        member_count: Some(1),
        owner_id: 456,
        premium_subscription_count: None,
        premium_tier: 0,
        unavailable: false,
        vanity_url_code: None,
        channels: vec![GuildChannel {
            id: 91,
            guild_id: None,
            kind: ChannelKind::Text,
            name: "general".to_owned(),
        }],
        emojis: vec![emoji(92, None)],
        members: vec![member(93, 9)],
        presences: Vec::new(),
        roles: vec![role(94)],
        voice_states: vec![voice_state(9, Some(91), 93)],
    };
    cache.cache_guild(guild);
    assert!(cache.guild(9).is_some());
    assert!(cache.guild_channel(91).is_some());
    assert!(cache.voice_state(9, 93).is_some());

    cache.update(hourai_cache::updates::GuildDelete { guild_id: 9 });

    assert!(cache.guild(9).is_none());
    assert!(cache.guild_channel(91).is_none());
    assert!(cache.emoji(92).is_none());
    assert!(cache.member(9, 93).is_none());
    assert!(cache.role(94).is_none());
    assert!(cache.voice_state(9, 93).is_none());
    assert!(cache.guild_channels(9).is_none());
    // The member's user was reachable only through this guild.
    assert!(cache.user(93).is_none());
}

#[test]
fn test_unavailable_guild_drops_record() {
    let mut cache = InMemoryCache::new();
    let guild = Guild {
        id: 5,
        description: None,
        features: Vec::new(),
        icon: None,
        member_count: None,
        owner_id: 1,
        premium_subscription_count: None,
        premium_tier: 0,
        unavailable: false,
        vanity_url_code: None,
        channels: Vec::new(),
        emojis: Vec::new(),
        members: Vec::new(),
        presences: Vec::new(),
        roles: Vec::new(),
        voice_states: Vec::new(),
    };
    cache.cache_guild(guild);
    assert!(cache.guild(5).is_some());
    cache.unavailable_guild(5);
    assert!(cache.guild(5).is_none());
}

#[test]
fn test_presence_updates_online_set() {
    let mut cache = InMemoryCache::new();
    // A guild whose online set was never created is left alone.
    cache.cache_presence(1, 2, Status::Online);
    assert!(cache.guild_online(1).is_none());

    // A guild create makes the set exist; presences then toggle it.
    let guild = Guild {
        id: 1,
        description: None,
        features: Vec::new(),
        icon: None,
        member_count: None,
        owner_id: 10,
        premium_subscription_count: None,
        premium_tier: 0,
        unavailable: false,
        vanity_url_code: None,
        channels: Vec::new(),
        emojis: Vec::new(),
        members: Vec::new(),
        presences: vec![Presence { user: UserOrId::UserId { id: 2 }, status: Status::Online }],
        roles: Vec::new(),
        voice_states: Vec::new(),
    };
    cache.cache_guild(guild);
    assert!(cache.presence(1, 2));
    assert_eq!(cache.guild_online(1).unwrap(), vec![2]);

    cache.cache_presence(1, 2, Status::Offline);
    assert!(!cache.presence(1, 2));
    assert!(cache.guild_online(1).unwrap().is_empty());
}

#[test]
fn test_group_and_private_channel_storage() {
    let mut cache = InMemoryCache::new();

    cache.cache_group(Group { id: 21, name: Some("club".to_owned()), owner_id: 4 });
    assert_eq!(cache.group(21).unwrap().owner_id, 4);
    // Replacing with an equal value leaves the entry in place.
    cache.cache_group(Group { id: 21, name: Some("club".to_owned()), owner_id: 4 });
    assert_eq!(cache.group(21).unwrap().name, Some("club".to_owned()));
    let removed = cache.delete_group(21).unwrap();
    assert_eq!(removed.id, 21);
    assert!(cache.group(21).is_none());

    cache.cache_private_channel(PrivateChannel { id: 31, last_message_id: None });
    assert!(cache.private_channel(31).is_some());
    cache.cache_private_channel(PrivateChannel { id: 31, last_message_id: Some(9) });
    assert_eq!(cache.private_channel(31).unwrap().last_message_id, Some(9));
}

#[test]
fn test_guild_listing() {
    let mut cache = InMemoryCache::new();
    for id in [4u64, 6, 8] {
        let guild = Guild {
            id,
            description: None,
            features: Vec::new(),
            icon: None,
            member_count: None,
            owner_id: 1,
            premium_subscription_count: None,
            premium_tier: 0,
            unavailable: false,
            vanity_url_code: None,
            channels: Vec::new(),
            emojis: Vec::new(),
            members: Vec::new(),
            presences: Vec::new(),
            roles: Vec::new(),
            voice_states: Vec::new(),
        };
        cache.cache_guild(guild);
    }
    let mut ids = cache.guilds();
    ids.sort();
    assert_eq!(ids, vec![4, 6, 8]);
}

#[test]
fn test_dispatch_presence_and_voice_events() {
    let mut cache = InMemoryCache::new();
    let guild = Guild {
        id: 2,
        description: None,
        features: Vec::new(),
        icon: None,
        member_count: None,
        owner_id: 1,
        premium_subscription_count: None,
        premium_tier: 0,
        unavailable: false,
        vanity_url_code: None,
        channels: Vec::new(),
        emojis: Vec::new(),
        members: Vec::new(),
        presences: Vec::new(),
        roles: Vec::new(),
        voice_states: Vec::new(),
    };
    cache.cache_guild(guild);

    cache.update(PresenceUpdate {
        guild_id: 2,
        presence: Presence { user: UserOrId::UserId { id: 5 }, status: Status::Online },
    });
    assert!(cache.presence(2, 5));

    cache.update(VoiceStateUpdate(voice_state(2, Some(7), 5)));
    assert_eq!(cache.voice_state(2, 5), Some(7));
    assert_eq!(cache.voice_channel_users(7), vec![5]);
}

#[test]
fn test_resent_guild_create_rebuilds_indices() {
    let mut cache = InMemoryCache::new();
    let build = || Guild {
        id: 3,
        description: None,
        features: Vec::new(),
        icon: None,
        member_count: Some(1),
        owner_id: 9,
        premium_subscription_count: None,
        premium_tier: 0,
        unavailable: false,
        vanity_url_code: None,
        channels: vec![GuildChannel {
            id: 31,
            guild_id: None,
            kind: ChannelKind::Text,
            name: "general".to_owned(),
        }],
        emojis: vec![emoji(32, None)],
        members: vec![member(33, 3)],
        presences: Vec::new(),
        roles: vec![role(34)],
        voice_states: Vec::new(),
    };
    cache.cache_guild(build());
    // Re-sending an identical guild create resets every index and then
    // stores the unchanged children again: the indices must still hold
    // exactly the incoming ids, not end up empty.
    cache.cache_guild(build());
    assert_eq!(cache.guild_channels(3).unwrap(), vec![31]);
    assert_eq!(cache.guild_emojis(3).unwrap(), vec![32]);
    assert_eq!(cache.guild_members(3).unwrap(), vec![33]);
    assert_eq!(cache.guild_roles(3).unwrap(), vec![34]);
}

#[test]
fn test_equal_emoji_is_indexed_under_second_guild() {
    let mut cache = InMemoryCache::new();
    cache.cache_emoji(1, emoji(5, None));
    // The same emoji value arriving for another guild is kept as stored,
    // but its id still enters that guild's index.
    cache.cache_emoji(2, emoji(5, None));
    assert!(cache.guild_emojis(2).unwrap().contains(&5));
}

#[test]
fn test_unequal_user_replace_keeps_memberships() {
    let mut cache = InMemoryCache::new();
    cache.cache_user(user(6), Some(1));
    // A changed user record arriving through another guild replaces the
    // record, and the membership set accumulates: the user is still
    // reachable through the first guild's member records.
    let renamed = User {
        id: 6,
        name: "renamed".to_owned(),
        discriminator: "0001".to_owned(),
        bot: false,
    };
    cache.cache_user(renamed, Some(2));
    assert_eq!(cache.user(6).unwrap().name, "renamed");
    let mut guilds = cache.user_guilds(6).unwrap();
    guilds.sort();
    assert_eq!(guilds, vec![1, 2]);
}

#[test]
fn test_guild_delete_leaves_other_guilds_alone() {
    let mut cache = InMemoryCache::new();
    cache.cache_role(1, role(11));
    cache.cache_emoji(1, emoji(12, None));
    cache.cache_member(1, member(13, 1));
    cache.cache_voice_state(&voice_state(1, Some(14), 13));
    cache.cache_role(2, role(21));
    cache.cache_member(2, member(13, 2));

    cache.update(hourai_cache::updates::GuildDelete { guild_id: 2 });

    // Everything of the untouched guild survives.
    assert!(cache.role(11).is_some());
    assert!(cache.emoji(12).is_some());
    assert!(cache.member(1, 13).is_some());
    assert_eq!(cache.voice_state(1, 13), Some(14));
    assert_eq!(cache.guild_roles(1).unwrap(), vec![11]);
    // The user stays reachable through the surviving guild alone.
    assert_eq!(cache.user_guilds(13).unwrap(), vec![1]);
    // The deleted guild's data is gone.
    assert!(cache.role(21).is_none());
    assert!(cache.member(2, 13).is_none());
}
