use hourai_cache::cache::InMemoryCache;
use hourai_cache::commands::{require_in_guild, CommandError, Context, MessageContext};
use hourai_cache::error::CacheError;
use hourai_cache::model::{CachedMessage, Role, VoiceState};
use hourai_cache::track::{decode_track, Track, TrackInfo};

#[test]
fn track_encoding_round_trips() {
    let track = Track {
        info: TrackInfo {
            title: Some("a song".to_owned()),
            author: None,
            uri: "https://example.invalid/song".to_owned(),
            length_ms: 215_000,
            is_stream: false,
        },
        track: vec![0u8, 1, 2, 250, 251, 252],
    };
    let encoded = track.encoded();
    let decoded = decode_track(&encoded).unwrap();
    assert_eq!(decoded, track.track);
}

#[test]
fn track_decoding_rejects_invalid_text() {
    assert_eq!(decode_track("not base64 !!!"), Err(CacheError::InvalidBase64));
}

#[test]
fn track_display_prefers_title() {
    let with_title = TrackInfo {
        title: Some("a song".to_owned()),
        author: None,
        uri: "https://example.invalid/song".to_owned(),
        length_ms: 1000,
        is_stream: false,
    };
    assert_eq!(with_title.display_text(), "a song");

    let without_title = TrackInfo {
        title: None,
        author: None,
        uri: "https://example.invalid/song".to_owned(),
        length_ms: 1000,
        is_stream: true,
    };
    assert_eq!(without_title.display_text(), "https://example.invalid/song");
}

#[test]
fn require_in_guild_accepts_guild_messages() {
    let ctx = Context { message: MessageContext { guild_id: Some(77) } };
    assert_eq!(require_in_guild(&ctx).unwrap(), 77);
}

#[test]
fn require_in_guild_rejects_direct_messages() {
    let ctx = Context { message: MessageContext { guild_id: None } };
    match require_in_guild(&ctx) {
        Err(CommandError::FailedPrecondition(reason)) => {
            assert_eq!(reason, "Command must be run in a server.");
        },
        Ok(_) => panic!("a direct message must not pass the precondition"),
    }
}

#[test]
fn voice_state_update_is_idempotent() {
    let mut cache = InMemoryCache::new();
    let connect = VoiceState { guild_id: Some(1), channel_id: Some(2), user_id: 3 };
    cache.cache_voice_state(&connect);
    cache.cache_voice_state(&connect);
    // The same update twice yields one entry, not two.
    assert_eq!(1, cache.voice_states_count());
    assert_eq!(Some(2), cache.voice_state(1, 3));

    // A no-channel update after a with-channel update removes the entry.
    let disconnect = VoiceState { guild_id: Some(1), channel_id: None, user_id: 3 };
    cache.cache_voice_state(&disconnect);
    assert_eq!(0, cache.voice_states_count());
    assert!(cache.voice_state(1, 3).is_none());
}

#[test]
fn voice_state_without_guild_is_dropped() {
    let mut cache = InMemoryCache::new();
    let unindexable = VoiceState { guild_id: None, channel_id: Some(2), user_id: 3 };
    cache.cache_voice_state(&unindexable);
    assert_eq!(0, cache.voice_states_count());
}

#[test]
fn guild_permissions_owner_and_administrator() {
    let all = 0xffff_ffff_ffff_ffffu64;
    let mut cache = InMemoryCache::new();

    // An unknown guild and roles fold to no permissions.
    assert_eq!(0, cache.guild_permissions(1, 2, &vec![]));

    // The default role's bits are the base; its id is the guild's id.
    cache.cache_role(
        1,
        Role {
            id: 1,
            name: "everyone".to_owned(),
            color: 0,
            hoist: false,
            managed: false,
            mentionable: false,
            permissions: 0x400,
            position: 0,
        },
    );
    cache.cache_role(
        1,
        Role {
            id: 5,
            name: "writer".to_owned(),
            color: 0,
            hoist: false,
            managed: false,
            mentionable: false,
            permissions: 0x800,
            position: 1,
        },
    );
    // Unresolvable role ids are skipped.
    assert_eq!(0x400 | 0x800, cache.guild_permissions(1, 2, &vec![5, 999]));

    // An administrator bit grants everything.
    cache.cache_role(
        1,
        Role {
            id: 6,
            name: "admin".to_owned(),
            color: 0,
            hoist: false,
            managed: false,
            mentionable: false,
            permissions: 0x8,
            position: 2,
        },
    );
    assert_eq!(all, cache.guild_permissions(1, 2, &vec![6]));

    // The owner bypasses role computation entirely.
    let guild = hourai_cache::model::Guild {
        id: 1,
        description: None,
        features: Vec::new(),
        icon: None,
        member_count: None,
        owner_id: 2,
        premium_subscription_count: None,
        premium_tier: 0,
        unavailable: false,
        vanity_url_code: None,
        channels: Vec::new(),
        emojis: Vec::new(),
        members: Vec::new(),
        presences: Vec::new(),
        roles: Vec::new(),
        voice_states: Vec::new(),
    };
    cache.cache_guild(guild);
    assert_eq!(all, cache.guild_permissions(1, 2, &vec![]));
}

#[test]
fn message_history_keeps_the_newest() {
    let mut cache = InMemoryCache::builder().message_cache_size(2).build();
    for id in [10u64, 30, 20] {
        cache.cache_message(CachedMessage {
            id,
            channel_id: 7,
            guild_id: Some(1),
            author_id: 4,
            content: "hi".to_owned(),
        });
    }
    // The bound is two: the oldest message was evicted.
    assert!(cache.message(7, 10).is_none());
    assert!(cache.message(7, 20).is_some());
    assert!(cache.message(7, 30).is_some());
    assert_eq!(cache.message(7, 20).unwrap().content, "hi");
}

#[test]
fn errors_describe_themselves() {
    assert_eq!(
        CacheError::Decompression.describe(),
        "a stored value is not a zlib stream"
    );
    assert_eq!(CacheError::InvalidBase64.describe(), "a track is not valid base64");
}
