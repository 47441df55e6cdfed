use hourai_cache::codec::{compress_payload, decompress_payload};
use hourai_cache::db::{config_get_decode, config_set_cmd, CachedGuildConfig, CachedMessage,
    GuildConfigKind, LoggingConfig, MessageRecord, MusicConfig, OnlineStatus};
use hourai_cache::error::CacheError;
use hourai_cache::keys::{encode_pair_key, encode_single_key, encode_u64_be, CachePrefix};

fn cmd_arg_bytes(cmd: &redis::Cmd, idx: usize) -> Vec<u8> {
    match cmd.args_iter().nth(idx).unwrap() {
        redis::Arg::Simple(bytes) => bytes.to_vec(),
        _ => panic!("unexpected argument kind"),
    }
}

#[test]
fn codec_round_trip_empty() {
    let encoded = compress_payload(&[]).unwrap();
    let decoded = decompress_payload(&encoded).unwrap();
    assert_eq!(decoded, Vec::<u8>::new());
}

#[test]
fn codec_round_trip_compressible() {
    // A long repetitive payload compresses, so mode 1 is chosen.
    let payload = vec![7u8; 4096];
    let encoded = compress_payload(&payload).unwrap();
    assert_eq!(encoded[0], 1);
    assert!(encoded.len() < payload.len());
    let decoded = decompress_payload(&encoded).unwrap();
    assert_eq!(decoded, payload);
}

#[test]
fn codec_round_trip_incompressible() {
    // A tiny payload does not shrink, so the original is stored as mode 0.
    let payload = vec![1u8, 2, 3];
    let encoded = compress_payload(&payload).unwrap();
    assert_eq!(encoded[0], 0);
    assert_eq!(&encoded[1..], &payload[..]);
    let decoded = decompress_payload(&encoded).unwrap();
    assert_eq!(decoded, payload);
}

#[test]
fn codec_unrecognized_mode_passes_through() {
    let stored = vec![9u8, 1, 2, 3];
    let decoded = decompress_payload(&stored).unwrap();
    assert_eq!(decoded, stored);
}

#[test]
fn codec_corrupt_zlib_body_fails() {
    let stored = vec![1u8, 42, 42, 42];
    assert_eq!(decompress_payload(&stored), Err(CacheError::Decompression));
}

#[test]
fn key_encoding_layout() {
    let key = encode_single_key(CachePrefix::OnlineStatus, 0x0102030405060708);
    assert_eq!(key, vec![2u8, 1, 2, 3, 4, 5, 6, 7, 8]);

    let pair = encode_pair_key(CachePrefix::Messages, 1, 2);
    assert_eq!(pair.len(), 17);
    assert_eq!(pair[0], 3);
    assert_eq!(&pair[1..9], &encode_u64_be(1)[..]);
    assert_eq!(&pair[9..17], &encode_u64_be(2)[..]);
}

#[test]
fn key_encoding_orders_like_ids() {
    // Keys for 0 and 1 share everything but trailing bytes, and comparing
    // them as byte strings agrees with comparing the ids.
    let zero = encode_single_key(CachePrefix::GuildConfigs, 0);
    let one = encode_single_key(CachePrefix::GuildConfigs, 1);
    assert_eq!(zero[0], one[0]);
    assert_eq!(&zero[1..8], &one[1..8]);
    assert!(zero < one);

    let small = encode_single_key(CachePrefix::GuildConfigs, 300);
    let large = encode_single_key(CachePrefix::GuildConfigs, 70000);
    assert!(small < large);
}

#[test]
fn online_status_builds_atomic_refresh() {
    let mut status = OnlineStatus::new();
    status.set_online(9, vec![5, 6]);
    let pipeline = status.build();
    assert!(pipeline.is_transaction());
    let cmds: Vec<&redis::Cmd> = pipeline.cmd_iter().collect();
    assert_eq!(cmds.len(), 3);

    let key = encode_single_key(CachePrefix::OnlineStatus, 9);
    assert_eq!(cmd_arg_bytes(cmds[0], 0), b"DEL".to_vec());
    assert_eq!(cmd_arg_bytes(cmds[0], 1), key);

    assert_eq!(cmd_arg_bytes(cmds[1], 0), b"SADD".to_vec());
    assert_eq!(cmd_arg_bytes(cmds[1], 1), key);
    assert_eq!(cmd_arg_bytes(cmds[1], 2), encode_u64_be(5));
    assert_eq!(cmd_arg_bytes(cmds[1], 3), encode_u64_be(6));

    assert_eq!(cmd_arg_bytes(cmds[2], 0), b"EXPIRE".to_vec());
    assert_eq!(cmd_arg_bytes(cmds[2], 1), key);
    assert_eq!(cmd_arg_bytes(cmds[2], 2), b"3600".to_vec());
}

#[test]
fn message_flush_stores_with_expiry() {
    let record = MessageRecord {
        id: 40,
        channel_id: 30,
        guild_id: Some(20),
        content: b"hello there".to_vec(),
        author_id: 10,
        author_name: b"author".to_vec(),
        author_discriminator: 1234,
    };
    let message = CachedMessage::new(record);
    let pipeline = message.flush().unwrap();
    assert!(pipeline.is_transaction());
    let cmds: Vec<&redis::Cmd> = pipeline.cmd_iter().collect();
    assert_eq!(cmds.len(), 2);

    let key = encode_pair_key(CachePrefix::Messages, 30, 40);
    assert_eq!(cmd_arg_bytes(cmds[0], 0), b"SET".to_vec());
    assert_eq!(cmd_arg_bytes(cmds[0], 1), key);
    // The stored value runs through the codec and decodes back to the
    // serialized record, which carries the content verbatim.
    let stored = cmd_arg_bytes(cmds[0], 2);
    let decoded = decompress_payload(&stored).unwrap();
    assert_eq!(decoded[0], 1);
    assert!(decoded.windows(11).any(|w| w == b"hello there"));

    assert_eq!(cmd_arg_bytes(cmds[1], 0), b"EXPIRE".to_vec());
    assert_eq!(cmd_arg_bytes(cmds[1], 1), key);
    assert_eq!(cmd_arg_bytes(cmds[1], 2), b"3600".to_vec());
}

#[test]
fn message_bulk_delete_lists_every_key() {
    let cmd = CachedMessage::bulk_delete(8, vec![100, 200]);
    assert_eq!(cmd_arg_bytes(&cmd, 0), b"DEL".to_vec());
    assert_eq!(cmd_arg_bytes(&cmd, 1), encode_pair_key(CachePrefix::Messages, 8, 100));
    assert_eq!(cmd_arg_bytes(&cmd, 2), encode_pair_key(CachePrefix::Messages, 8, 200));
}

#[test]
fn message_delete_is_single_key_bulk() {
    let cmd = CachedMessage::delete(8, 100);
    assert_eq!(cmd_arg_bytes(&cmd, 0), b"DEL".to_vec());
    assert_eq!(cmd_arg_bytes(&cmd, 1), encode_pair_key(CachePrefix::Messages, 8, 100));
    assert_eq!(cmd.args_iter().count(), 2);
}

#[test]
fn config_absent_yields_default() {
    // A record absent from the store is not an error: the default-valued
    // record comes back.
    let config: MusicConfig = config_get_decode(None).unwrap();
    assert_eq!(config, MusicConfig { volume: 100, dj_role_id: None });

    let logging: LoggingConfig = config_get_decode(None).unwrap();
    assert_eq!(logging, LoggingConfig { modlog_channel_id: None });
}

#[test]
fn config_set_then_get_round_trips() {
    let config = MusicConfig { volume: 42, dj_role_id: Some(777) };
    let cmd = config_set_cmd(55, &config).unwrap();
    assert_eq!(cmd_arg_bytes(&cmd, 0), b"HSET".to_vec());
    assert_eq!(cmd_arg_bytes(&cmd, 1), encode_single_key(CachePrefix::GuildConfigs, 55));
    assert_eq!(cmd_arg_bytes(&cmd, 2), b"4".to_vec());

    // Reading back what the command would store recovers the record.
    let stored = cmd_arg_bytes(&cmd, 3);
    let read: MusicConfig = config_get_decode(Some(stored)).unwrap();
    assert_eq!(read, config);
}

#[test]
fn config_decode_failures_are_typed() {
    // A stored value that claims zlib compression but is not a stream.
    let bad_stream = vec![1u8, 99];
    let r: Result<MusicConfig, CacheError> = config_get_decode(Some(bad_stream));
    assert_eq!(r, Err(CacheError::Decompression));

    // A value that decompresses but does not parse as the record shape.
    let bad_record = vec![0u8, 9, 9, 9];
    let r: Result<MusicConfig, CacheError> = config_get_decode(Some(bad_record));
    assert_eq!(r, Err(CacheError::MalformedRecord));
}

#[test]
fn config_registry_subkeys_are_unique() {
    let kinds = [
        GuildConfigKind::Auto,
        GuildConfigKind::Moderation,
        GuildConfigKind::Logging,
        GuildConfigKind::Validation,
        GuildConfigKind::Music,
        GuildConfigKind::Announcement,
        GuildConfigKind::Role,
    ];
    for i in 0..kinds.len() {
        for j in 0..kinds.len() {
            if i != j {
                assert_ne!(kinds[i].subkey(), kinds[j].subkey());
            }
        }
    }
    assert_eq!(MusicConfig::subkey(), GuildConfigKind::Music.subkey());
    assert_eq!(LoggingConfig::subkey(), GuildConfigKind::Logging.subkey());
}
