//! The persistent cache layer: durable per-guild configuration records, an
//! ephemeral per-guild online-status set, and expiring message records.
//!
//! Every write is expressed as a batch of commands executed atomically as
//! one unit against the external store; the exact byte content of every
//! command is stated in the contracts. Values go through the compression
//! codec; keys follow the fixed-width encoding of [`crate::keys`].

use vstd::prelude::*;

use crate::codec::{compress_payload, decompress_payload, spec_decode};
use crate::error::CacheError;
use crate::keys::{encode_pair_key, encode_single_key, encode_u64_be, spec_pair_key,
    spec_single_key, u64_be, CachePrefix};
use crate::redis_cmd::{cmd_arg_bytes, cmd_args, cmd_new, pipe_add_command, pipe_atomic,
    pipe_atomic_on, pipe_cmds, pipe_ignore, pipe_new};

verus! {

/// The name of the command that deletes keys.
pub open spec fn del_name() -> Seq<u8> {
    seq![68u8, 69u8, 76u8]
}

/// The name of the command that adds members to a set.
pub open spec fn sadd_name() -> Seq<u8> {
    seq![83u8, 65u8, 68u8, 68u8]
}

/// The name of the command that sets a key's time to live.
pub open spec fn expire_name() -> Seq<u8> {
    seq![69u8, 88u8, 80u8, 73u8, 82u8, 69u8]
}

/// The name of the command that stores a value under a key.
pub open spec fn set_name() -> Seq<u8> {
    seq![83u8, 69u8, 84u8]
}

/// The name of the command that stores a hash field.
pub open spec fn hset_name() -> Seq<u8> {
    seq![72u8, 83u8, 69u8, 84u8]
}

/// The name of the command that reads a hash field.
pub open spec fn hget_name() -> Seq<u8> {
    seq![72u8, 71u8, 69u8, 84u8]
}

/// The decimal digits of the fixed one-hour expiry, as command-argument
/// bytes.
pub open spec fn expiry_secs() -> Seq<u8> {
    seq![51u8, 54u8, 48u8, 48u8]
}

fn make_del_name() -> (r: Vec<u8>)
    ensures
        r@ == del_name(),
{
    let mut v: Vec<u8> = Vec::new();
    v.push(68u8);
    v.push(69u8);
    v.push(76u8);
    proof {
        assert(v@ =~= del_name());
    }
    v
}

fn make_sadd_name() -> (r: Vec<u8>)
    ensures
        r@ == sadd_name(),
{
    let mut v: Vec<u8> = Vec::new();
    v.push(83u8);
    v.push(65u8);
    v.push(68u8);
    v.push(68u8);
    proof {
        assert(v@ =~= sadd_name());
    }
    v
}

fn make_expire_name() -> (r: Vec<u8>)
    ensures
        r@ == expire_name(),
{
    let mut v: Vec<u8> = Vec::new();
    v.push(69u8);
    v.push(88u8);
    v.push(80u8);
    v.push(73u8);
    v.push(82u8);
    v.push(69u8);
    proof {
        assert(v@ =~= expire_name());
    }
    v
}

fn make_set_name() -> (r: Vec<u8>)
    ensures
        r@ == set_name(),
{
    let mut v: Vec<u8> = Vec::new();
    v.push(83u8);
    v.push(69u8);
    v.push(84u8);
    proof {
        assert(v@ =~= set_name());
    }
    v
}

fn make_hset_name() -> (r: Vec<u8>)
    ensures
        r@ == hset_name(),
{
    let mut v: Vec<u8> = Vec::new();
    v.push(72u8);
    v.push(83u8);
    v.push(69u8);
    v.push(84u8);
    proof {
        assert(v@ =~= hset_name());
    }
    v
}

fn make_hget_name() -> (r: Vec<u8>)
    ensures
        r@ == hget_name(),
{
    let mut v: Vec<u8> = Vec::new();
    v.push(72u8);
    v.push(71u8);
    v.push(69u8);
    v.push(84u8);
    proof {
        assert(v@ =~= hget_name());
    }
    v
}

fn make_expiry_secs() -> (r: Vec<u8>)
    ensures
        r@ == expiry_secs(),
{
    let mut v: Vec<u8> = Vec::new();
    v.push(51u8);
    v.push(54u8);
    v.push(48u8);
    v.push(48u8);
    proof {
        assert(v@ =~= expiry_secs());
    }
    v
}

/// The DEL command for one key.
pub open spec fn del_cmd(key: Seq<u8>) -> Seq<Seq<u8>> {
    seq![del_name(), key]
}

/// The SADD command adding the given 64-bit ids, each as its 8 big-endian
/// bytes, to the set under the key.
pub open spec fn sadd_cmd(key: Seq<u8>, ids: Seq<u64>) -> Seq<Seq<u8>> {
    seq![sadd_name(), key] + ids.map_values(|id: u64| u64_be(id))
}

/// The EXPIRE command giving the key the fixed one-hour expiry.
pub open spec fn expire_cmd(key: Seq<u8>) -> Seq<Seq<u8>> {
    seq![expire_name(), key, expiry_secs()]
}

/// The SET command storing a value under a key.
pub open spec fn set_cmd(key: Seq<u8>, value: Seq<u8>) -> Seq<Seq<u8>> {
    seq![set_name(), key, value]
}

/// The three commands that atomically refresh a guild's online set: clear
/// it, refill it with the ids, and give it the fixed expiry so stale
/// entries heal themselves if refreshing stops.
pub open spec fn online_status_cmds(guild_id: u64, ids: Seq<u64>) -> Seq<Seq<Seq<u8>>> {
    let key = spec_single_key(CachePrefix::OnlineStatus, guild_id);
    seq![del_cmd(key), sadd_cmd(key, ids), expire_cmd(key)]
}

/// Collects per-guild online-status refreshes into one atomic command
/// batch.
pub struct OnlineStatus {
    pipeline: redis::Pipeline,
}

impl OnlineStatus {
    /// The commands collected so far.
    pub closed spec fn commands(&self) -> Seq<Seq<Seq<u8>>> {
        pipe_cmds(self.pipeline)
    }

    /// Whether the batch executes atomically. It always does.
    pub closed spec fn is_atomic(&self) -> bool {
        pipe_atomic(self.pipeline)
    }

    /// Creates an empty atomic batch.
    pub fn new() -> (r: Self)
        ensures
            r.commands() == Seq::<Seq<Seq<u8>>>::empty(),
            r.is_atomic(),
    {
        let mut pipeline = pipe_new();
        pipe_atomic_on(&mut pipeline);
        OnlineStatus { pipeline }
    }

    /// Adds one guild's refresh: clear the guild's online set, refill it
    /// with the given user ids, and set the fixed expiry.
    pub fn set_online(&mut self, guild_id: u64, online: Vec<u64>)
        ensures
            final(self).commands() == old(self).commands() + online_status_cmds(
                guild_id,
                online@,
            ),
            final(self).is_atomic() == old(self).is_atomic(),
    {
        let key = encode_single_key(CachePrefix::OnlineStatus, guild_id);

        let mut del = cmd_new();
        cmd_arg_bytes(&mut del, make_del_name().as_slice());
        cmd_arg_bytes(&mut del, key.as_slice());
        proof {
            assert(cmd_args(del) =~= del_cmd(key@));
        }
        pipe_add_command(&mut self.pipeline, del);
        pipe_ignore(&mut self.pipeline);

        let mut sadd = cmd_new();
        cmd_arg_bytes(&mut sadd, make_sadd_name().as_slice());
        cmd_arg_bytes(&mut sadd, key.as_slice());
        let mut i: usize = 0;
        while i < online.len()
            invariant
                i <= online@.len(),
                cmd_args(sadd) =~= seq![sadd_name(), spec_single_key(
                    CachePrefix::OnlineStatus,
                    guild_id,
                )] + online@.take(i as int).map_values(|id: u64| u64_be(id)),
            decreases online@.len() - i,
        {
            let id_bytes = encode_u64_be(online[i]);
            cmd_arg_bytes(&mut sadd, id_bytes.as_slice());
            proof {
                assert(online@.take(i + 1).map_values(|id: u64| u64_be(id)) =~= online@.take(
                    i as int,
                ).map_values(|id: u64| u64_be(id)).push(u64_be(online@[i as int])));
            }
            i = i + 1;
        }
        proof {
            assert(online@.take(online@.len() as int) =~= online@);
            assert(cmd_args(sadd) =~= sadd_cmd(
                spec_single_key(CachePrefix::OnlineStatus, guild_id),
                online@,
            ));
        }
        pipe_add_command(&mut self.pipeline, sadd);
        pipe_ignore(&mut self.pipeline);

        let mut expire = cmd_new();
        cmd_arg_bytes(&mut expire, make_expire_name().as_slice());
        cmd_arg_bytes(&mut expire, key.as_slice());
        cmd_arg_bytes(&mut expire, make_expiry_secs().as_slice());
        proof {
            assert(cmd_args(expire) =~= expire_cmd(key@));
        }
        pipe_add_command(&mut self.pipeline, expire);
        proof {
            assert(self.commands() =~= old(self).commands() + online_status_cmds(
                guild_id,
                online@,
            ));
        }
    }

    /// Hands the collected batch over for execution.
    pub fn build(self) -> (r: redis::Pipeline)
        ensures
            pipe_cmds(r) == self.commands(),
            pipe_atomic(r) == self.is_atomic(),
    {
        self.pipeline
    }
}

/// A message snapshot bound for the persistent cache: the ids that key it,
/// the content, and the minimal identity of its author.
pub struct MessageRecord {
    pub id: u64,
    pub channel_id: u64,
    pub guild_id: Option<u64>,
    pub content: Vec<u8>,
    pub author_id: u64,
    pub author_name: Vec<u8>,
    pub author_discriminator: u32,
}

/// The serialized form of a message record: a version byte, the fixed
///-width numeric fields, then the length-prefixed content and author
/// name.
pub open spec fn spec_message_record_bytes(
    id: u64,
    channel_id: u64,
    guild_id: Option<u64>,
    content: Seq<u8>,
    author_id: u64,
    author_name: Seq<u8>,
    author_discriminator: u32,
) -> Seq<u8> {
    seq![1u8] + u64_be(id) + u64_be(channel_id) + (match guild_id {
        Option::Some(g) => seq![1u8] + u64_be(g),
        Option::None => seq![0u8],
    }) + u64_be(author_id) + u64_be(author_discriminator as u64) + u64_be(
        content.len() as u64,
    ) + content + u64_be(author_name.len() as u64) + author_name
}

/// A message snapshot prepared for the persistent cache.
pub struct CachedMessage {
    record: MessageRecord,
}

impl CachedMessage {
    /// The record carried by this snapshot.
    pub closed spec fn spec_record(&self) -> MessageRecord {
        self.record
    }

    /// Wraps a message record for flushing.
    pub fn new(record: MessageRecord) -> (r: Self)
        ensures
            r.spec_record() == record,
    {
        CachedMessage { record }
    }

    /// Serializes the record.
    pub fn encode_record(&self) -> (r: Vec<u8>)
        requires
            self.spec_record().content@.len() <= u64::MAX,
            self.spec_record().author_name@.len() <= u64::MAX,
        ensures
            r@ == spec_message_record_bytes(
                self.spec_record().id,
                self.spec_record().channel_id,
                self.spec_record().guild_id,
                self.spec_record().content@,
                self.spec_record().author_id,
                self.spec_record().author_name@,
                self.spec_record().author_discriminator,
            ),
    {
        let mut out: Vec<u8> = Vec::new();
        out.push(1u8);
        let mut part = encode_u64_be(self.record.id);
        out.append(&mut part);
        let mut part = encode_u64_be(self.record.channel_id);
        out.append(&mut part);
        match self.record.guild_id {
            Some(g) => {
                out.push(1u8);
                let mut part = encode_u64_be(g);
                out.append(&mut part);
            },
            None => {
                out.push(0u8);
            },
        }
        let mut part = encode_u64_be(self.record.author_id);
        out.append(&mut part);
        let mut part = encode_u64_be(self.record.author_discriminator as u64);
        out.append(&mut part);
        let mut part = encode_u64_be(self.record.content.len() as u64);
        out.append(&mut part);
        let mut content = crate::model::copy_bytes(&self.record.content);
        out.append(&mut content);
        let mut part = encode_u64_be(self.record.author_name.len() as u64);
        out.append(&mut part);
        let mut name = crate::model::copy_bytes(&self.record.author_name);
        out.append(&mut name);
        proof {
            assert(out@ =~= spec_message_record_bytes(
                self.spec_record().id,
                self.spec_record().channel_id,
                self.spec_record().guild_id,
                self.spec_record().content@,
                self.spec_record().author_id,
                self.spec_record().author_name@,
                self.spec_record().author_discriminator,
            ));
        }
        out
    }

    /// Builds the atomic batch that stores this snapshot with the fixed
    /// expiry, keyed by its channel and message ids; the value is the
    /// serialized record run through the compression codec. Building the
    /// batch always succeeds.
    pub fn flush(self) -> (r: Result<redis::Pipeline, CacheError>)
        requires
            self.spec_record().content@.len() <= u64::MAX,
            self.spec_record().author_name@.len() <= u64::MAX,
        ensures
            r is Ok,
            r matches Ok(p) ==> {
                let key = spec_pair_key(
                    CachePrefix::Messages,
                    self.spec_record().channel_id,
                    self.spec_record().id,
                );
                let encoded = spec_message_record_bytes(
                    self.spec_record().id,
                    self.spec_record().channel_id,
                    self.spec_record().guild_id,
                    self.spec_record().content@,
                    self.spec_record().author_id,
                    self.spec_record().author_name@,
                    self.spec_record().author_discriminator,
                );
                &&& pipe_atomic(p)
                &&& pipe_cmds(p).len() == 2
                &&& pipe_cmds(p)[1] == expire_cmd(key)
                &&& pipe_cmds(p)[0].len() == 3
                &&& pipe_cmds(p)[0][0] == set_name()
                &&& pipe_cmds(p)[0][1] == key
                &&& spec_decode(pipe_cmds(p)[0][2]) == Some(encoded)
            },
    {
        let key = encode_pair_key(CachePrefix::Messages, self.record.channel_id, self.record.id);
        let encoded = self.encode_record();
        let payload = match compress_payload(encoded.as_slice()) {
            Ok(p) => p,
            Err(e) => {
                return Err(e);
            },
        };
        let mut pipeline = pipe_new();
        pipe_atomic_on(&mut pipeline);
        let mut set = cmd_new();
        cmd_arg_bytes(&mut set, make_set_name().as_slice());
        cmd_arg_bytes(&mut set, key.as_slice());
        cmd_arg_bytes(&mut set, payload.as_slice());
        proof {
            assert(cmd_args(set) =~= seq![set_name(), key@, payload@]);
        }
        pipe_add_command(&mut pipeline, set);
        let mut expire = cmd_new();
        cmd_arg_bytes(&mut expire, make_expire_name().as_slice());
        cmd_arg_bytes(&mut expire, key.as_slice());
        cmd_arg_bytes(&mut expire, make_expiry_secs().as_slice());
        proof {
            assert(cmd_args(expire) =~= expire_cmd(key@));
        }
        pipe_add_command(&mut pipeline, expire);
        Ok(pipeline)
    }

    /// The command that deletes one stored message.
    pub fn delete(channel_id: u64, id: u64) -> (r: redis::Cmd)
        ensures
            cmd_args(r) == seq![del_name(), spec_pair_key(CachePrefix::Messages, channel_id, id)],
    {
        let mut ids: Vec<u64> = Vec::new();
        ids.push(id);
        let r = Self::bulk_delete(channel_id, ids);
        proof {
            assert(seq![id].map_values(
                |i: u64| spec_pair_key(CachePrefix::Messages, channel_id, i),
            ) =~= seq![spec_pair_key(CachePrefix::Messages, channel_id, id)]);
            assert(cmd_args(r) =~= seq![del_name(), spec_pair_key(
                CachePrefix::Messages,
                channel_id,
                id,
            )]);
        }
        r
    }

    /// The command that deletes every listed message of a channel.
    pub fn bulk_delete(channel_id: u64, ids: Vec<u64>) -> (r: redis::Cmd)
        ensures
            cmd_args(r) == seq![del_name()] + ids@.map_values(
                |i: u64| spec_pair_key(CachePrefix::Messages, channel_id, i),
            ),
    {
        let mut cmd = cmd_new();
        cmd_arg_bytes(&mut cmd, make_del_name().as_slice());
        let mut k: usize = 0;
        while k < ids.len()
            invariant
                k <= ids@.len(),
                cmd_args(cmd) =~= seq![del_name()] + ids@.take(k as int).map_values(
                    |i: u64| spec_pair_key(CachePrefix::Messages, channel_id, i),
                ),
            decreases ids@.len() - k,
        {
            let key = encode_pair_key(CachePrefix::Messages, channel_id, ids[k]);
            cmd_arg_bytes(&mut cmd, key.as_slice());
            proof {
                assert(ids@.take(k + 1).map_values(
                    |i: u64| spec_pair_key(CachePrefix::Messages, channel_id, i),
                ) =~= ids@.take(k as int).map_values(
                    |i: u64| spec_pair_key(CachePrefix::Messages, channel_id, i),
                ).push(spec_pair_key(CachePrefix::Messages, channel_id, ids@[k as int])));
            }
            k = k + 1;
        }
        proof {
            assert(ids@.take(ids@.len() as int) =~= ids@);
        }
        cmd
    }
}


/// The closed registry of per-guild configuration kinds; each kind owns
/// one sub-kind byte under the guild's configuration key.
#[derive(Copy, Clone, PartialEq, Eq, Structural, Debug)]
pub enum GuildConfigKind {
    Auto,
    Moderation,
    Logging,
    Validation,
    Music,
    Announcement,
    Role,
}

impl GuildConfigKind {
    /// The sub-kind byte of this configuration kind.
    pub open spec fn spec_subkey(self) -> u8 {
        match self {
            GuildConfigKind::Auto => 0u8,
            GuildConfigKind::Moderation => 1u8,
            GuildConfigKind::Logging => 2u8,
            GuildConfigKind::Validation => 3u8,
            GuildConfigKind::Music => 4u8,
            GuildConfigKind::Announcement => 5u8,
            GuildConfigKind::Role => 6u8,
        }
    }

    /// Returns the sub-kind byte of this configuration kind.
    pub fn subkey(self) -> (r: u8)
        ensures
            r == self.spec_subkey(),
            r <= 9,
    {
        match self {
            GuildConfigKind::Auto => 0u8,
            GuildConfigKind::Moderation => 1u8,
            GuildConfigKind::Logging => 2u8,
            GuildConfigKind::Validation => 3u8,
            GuildConfigKind::Music => 4u8,
            GuildConfigKind::Announcement => 5u8,
            GuildConfigKind::Role => 6u8,
        }
    }
}

/// No two configuration kinds share a sub-kind byte.
pub proof fn lemma_config_registry_unique(a: GuildConfigKind, b: GuildConfigKind)
    ensures
        a.spec_subkey() == b.spec_subkey() ==> a == b,
{
}

/// A per-guild configuration record that the persistent cache can store:
/// it owns a sub-kind byte and a serialization that its own decoder
/// inverts.
pub trait CachedGuildConfig: Sized {
    /// The sub-kind byte of this record type. At most one decimal digit.
    spec fn spec_subkey() -> u8;

    /// The serialized bytes of this record.
    spec fn spec_encoded(&self) -> Seq<u8>;

    /// What the record decoder recovers from stored bytes.
    spec fn spec_decoded(data: Seq<u8>) -> Option<Self>;

    /// The record meaning "no configuration stored yet".
    spec fn spec_default() -> Self;

    /// Returns the sub-kind byte.
    fn subkey() -> (r: u8)
        ensures
            r == Self::spec_subkey(),
            r <= 9,
    ;

    /// Serializes the record; its own decoder recovers it exactly.
    fn encode_record(&self) -> (r: Vec<u8>)
        ensures
            r@ == self.spec_encoded(),
            Self::spec_decoded(r@) == Some(*self),
    ;

    /// Parses a stored record.
    fn decode_record(data: &[u8]) -> (r: Result<Self, CacheError>)
        ensures
            r matches Ok(v) ==> Self::spec_decoded(data@) == Some(v),
            r is Err ==> Self::spec_decoded(data@) is None && r == Err::<Self, CacheError>(
                CacheError::MalformedRecord,
            ),
    ;

    /// Returns the default-valued record.
    fn default_record() -> (r: Self)
        ensures
            r == Self::spec_default(),
    ;
}

/// Music playback configuration of a guild.
#[derive(PartialEq, Eq, Structural, Debug)]
pub struct MusicConfig {
    /// Playback volume, 0 to 150.
    pub volume: u64,
    /// The role allowed to control playback, if restricted.
    pub dj_role_id: Option<u64>,
}

impl CachedGuildConfig for MusicConfig {
    open spec fn spec_subkey() -> u8 {
        GuildConfigKind::Music.spec_subkey()
    }

    open spec fn spec_encoded(&self) -> Seq<u8> {
        seq![1u8] + u64_be(self.volume) + (match self.dj_role_id {
            Option::Some(r) => seq![1u8] + u64_be(r),
            Option::None => seq![0u8],
        })
    }

    open spec fn spec_decoded(data: Seq<u8>) -> Option<MusicConfig> {
        if data.len() == 10 && data[0] == 1 && data[9] == 0 {
            Some(
                MusicConfig {
                    volume: crate::keys::be_val(data.subrange(1, 9)) as u64,
                    dj_role_id: None,
                },
            )
        } else if data.len() == 18 && data[0] == 1 && data[9] == 1 {
            Some(
                MusicConfig {
                    volume: crate::keys::be_val(data.subrange(1, 9)) as u64,
                    dj_role_id: Some(crate::keys::be_val(data.subrange(10, 18)) as u64),
                },
            )
        } else {
            None
        }
    }

    open spec fn spec_default() -> MusicConfig {
        MusicConfig { volume: 100, dj_role_id: None }
    }

    fn subkey() -> (r: u8) {
        GuildConfigKind::Music.subkey()
    }

    fn encode_record(&self) -> (r: Vec<u8>) {
        let mut out: Vec<u8> = Vec::new();
        out.push(1u8);
        let mut part = encode_u64_be(self.volume);
        out.append(&mut part);
        match self.dj_role_id {
            Some(role) => {
                out.push(1u8);
                let mut part = encode_u64_be(role);
                out.append(&mut part);
            },
            None => {
                out.push(0u8);
            },
        }
        proof {
            assert(out@ =~= self.spec_encoded());
            match self.dj_role_id {
                Option::Some(role) => {
                    assert(out@.subrange(1, 9) =~= u64_be(self.volume));
                    assert(out@.subrange(10, 18) =~= u64_be(role));
                    crate::keys::lemma_be_val_of_u64_be(self.volume);
                    crate::keys::lemma_be_val_of_u64_be(role);
                },
                Option::None => {
                    assert(out@.subrange(1, 9) =~= u64_be(self.volume));
                    crate::keys::lemma_be_val_of_u64_be(self.volume);
                },
            }
        }
        out
    }

    fn decode_record(data: &[u8]) -> (r: Result<MusicConfig, CacheError>) {
        if data.len() == 10 {
            let ver = *vstd::slice::slice_index_get(data, 0);
            let tag = *vstd::slice::slice_index_get(data, 9);
            if ver == 1 && tag == 0 {
                let volume = crate::keys::decode_u64_be(vstd::slice::slice_subrange(data, 1, 9));
                proof {
                    assert(data@.subrange(1, 9) =~= data@.subrange(1, 9));
                }
                return Ok(MusicConfig { volume, dj_role_id: None });
            }
            Err(CacheError::MalformedRecord)
        } else if data.len() == 18 {
            let ver = *vstd::slice::slice_index_get(data, 0);
            let tag = *vstd::slice::slice_index_get(data, 9);
            if ver == 1 && tag == 1 {
                let volume = crate::keys::decode_u64_be(vstd::slice::slice_subrange(data, 1, 9));
                let role = crate::keys::decode_u64_be(vstd::slice::slice_subrange(data, 10, 18));
                return Ok(MusicConfig { volume, dj_role_id: Some(role) });
            }
            Err(CacheError::MalformedRecord)
        } else {
            Err(CacheError::MalformedRecord)
        }
    }

    fn default_record() -> (r: MusicConfig) {
        MusicConfig { volume: 100, dj_role_id: None }
    }
}

/// Event-logging configuration of a guild.
#[derive(PartialEq, Eq, Structural, Debug)]
pub struct LoggingConfig {
    /// The channel that receives moderation log entries, if any.
    pub modlog_channel_id: Option<u64>,
}

impl CachedGuildConfig for LoggingConfig {
    open spec fn spec_subkey() -> u8 {
        GuildConfigKind::Logging.spec_subkey()
    }

    open spec fn spec_encoded(&self) -> Seq<u8> {
        seq![1u8] + (match self.modlog_channel_id {
            Option::Some(c) => seq![1u8] + u64_be(c),
            Option::None => seq![0u8],
        })
    }

    open spec fn spec_decoded(data: Seq<u8>) -> Option<LoggingConfig> {
        if data.len() == 2 && data[0] == 1 && data[1] == 0 {
            Some(LoggingConfig { modlog_channel_id: None })
        } else if data.len() == 10 && data[0] == 1 && data[1] == 1 {
            Some(
                LoggingConfig {
                    modlog_channel_id: Some(crate::keys::be_val(data.subrange(2, 10)) as u64),
                },
            )
        } else {
            None
        }
    }

    open spec fn spec_default() -> LoggingConfig {
        LoggingConfig { modlog_channel_id: None }
    }

    fn subkey() -> (r: u8) {
        GuildConfigKind::Logging.subkey()
    }

    fn encode_record(&self) -> (r: Vec<u8>) {
        let mut out: Vec<u8> = Vec::new();
        out.push(1u8);
        match self.modlog_channel_id {
            Some(channel) => {
                out.push(1u8);
                let mut part = encode_u64_be(channel);
                out.append(&mut part);
            },
            None => {
                out.push(0u8);
            },
        }
        proof {
            assert(out@ =~= self.spec_encoded());
            match self.modlog_channel_id {
                Option::Some(channel) => {
                    assert(out@.subrange(2, 10) =~= u64_be(channel));
                    crate::keys::lemma_be_val_of_u64_be(channel);
                },
                Option::None => {},
            }
        }
        out
    }

    fn decode_record(data: &[u8]) -> (r: Result<LoggingConfig, CacheError>) {
        if data.len() == 2 {
            let ver = *vstd::slice::slice_index_get(data, 0);
            let tag = *vstd::slice::slice_index_get(data, 1);
            if ver == 1 && tag == 0 {
                return Ok(LoggingConfig { modlog_channel_id: None });
            }
            Err(CacheError::MalformedRecord)
        } else if data.len() == 10 {
            let ver = *vstd::slice::slice_index_get(data, 0);
            let tag = *vstd::slice::slice_index_get(data, 1);
            if ver == 1 && tag == 1 {
                let channel = crate::keys::decode_u64_be(vstd::slice::slice_subrange(data, 2, 10));
                return Ok(LoggingConfig { modlog_channel_id: Some(channel) });
            }
            Err(CacheError::MalformedRecord)
        } else {
            Err(CacheError::MalformedRecord)
        }
    }

    fn default_record() -> (r: LoggingConfig) {
        LoggingConfig { modlog_channel_id: None }
    }
}

/// The hash field under which a record type stores: the decimal digit of
/// its sub-kind byte, as the external store's argument encoding writes
/// small integers.
pub open spec fn subkey_field(subkey: u8) -> Seq<u8> {
    seq![(48 + subkey) as u8]
}

fn make_subkey_field(subkey: u8) -> (r: Vec<u8>)
    requires
        subkey <= 9,
    ensures
        r@ == subkey_field(subkey),
{
    let mut v: Vec<u8> = Vec::new();
    v.push(48 + subkey);
    proof {
        assert(v@ =~= subkey_field(subkey));
    }
    v
}

/// Builds the command that durably stores a configuration record for a
/// guild: its serialized bytes run through the compression codec, written
/// to the record type's sub-kind field under the guild's configuration
/// key. Configuration has no expiry. Building the command always
/// succeeds.
pub fn config_set_cmd<T: CachedGuildConfig>(guild_id: u64, value: &T) -> (r: Result<
    redis::Cmd,
    CacheError,
>)
    ensures
        r is Ok,
        r matches Ok(c) ==> {
            &&& cmd_args(c).len() == 4
            &&& cmd_args(c)[0] == hset_name()
            &&& cmd_args(c)[1] == spec_single_key(CachePrefix::GuildConfigs, guild_id)
            &&& cmd_args(c)[2] == subkey_field(T::spec_subkey())
            &&& spec_decode(cmd_args(c)[3]) == Some(value.spec_encoded())
        },
{
    let encoded = value.encode_record();
    let payload = match compress_payload(encoded.as_slice()) {
        Ok(p) => p,
        Err(e) => {
            return Err(e);
        },
    };
    let key = encode_single_key(CachePrefix::GuildConfigs, guild_id);
    let field = make_subkey_field(T::subkey());
    let mut cmd = cmd_new();
    cmd_arg_bytes(&mut cmd, make_hset_name().as_slice());
    cmd_arg_bytes(&mut cmd, key.as_slice());
    cmd_arg_bytes(&mut cmd, field.as_slice());
    cmd_arg_bytes(&mut cmd, payload.as_slice());
    proof {
        assert(cmd_args(cmd) =~= seq![hset_name(), key@, field@, payload@]);
    }
    Ok(cmd)
}

/// Builds the command that reads a guild's stored record of a
/// configuration type.
pub fn config_get_cmd<T: CachedGuildConfig>(guild_id: u64) -> (r: redis::Cmd)
    ensures
        cmd_args(r) == seq![
            hget_name(),
            spec_single_key(CachePrefix::GuildConfigs, guild_id),
            subkey_field(T::spec_subkey()),
        ],
{
    let key = encode_single_key(CachePrefix::GuildConfigs, guild_id);
    let field = make_subkey_field(T::subkey());
    let mut cmd = cmd_new();
    cmd_arg_bytes(&mut cmd, make_hget_name().as_slice());
    cmd_arg_bytes(&mut cmd, key.as_slice());
    cmd_arg_bytes(&mut cmd, field.as_slice());
    proof {
        assert(cmd_args(cmd) =~= seq![hget_name(), key@, field@]);
    }
    cmd
}

/// Turns the store's reply to a configuration read into a record. Absence
/// is not an error: a guild with nothing stored gets the default-valued
/// record. A stored value that does not decompress, or whose payload does
/// not parse, is a typed error, never silently swallowed.
pub fn config_get_decode<T: CachedGuildConfig>(response: Option<Vec<u8>>) -> (r: Result<
    T,
    CacheError,
>)
    ensures
        response is None ==> r == Ok::<T, CacheError>(T::spec_default()),
        response matches Some(b) ==> (match spec_decode(b@) {
            Option::None => r == Err::<T, CacheError>(CacheError::Decompression),
            Option::Some(payload) => match T::spec_decoded(payload) {
                Option::None => r == Err::<T, CacheError>(CacheError::MalformedRecord),
                Option::Some(v) => r == Ok::<T, CacheError>(v),
            },
        }),
{
    let payload = match response {
        Some(bytes) => bytes,
        None => {
            return Ok(T::default_record());
        },
    };
    let decompressed = match decompress_payload(payload.as_slice()) {
        Ok(d) => d,
        Err(e) => {
            return Err(e);
        },
    };
    T::decode_record(decompressed.as_slice())
}

} // verus!
